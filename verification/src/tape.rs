//! The tape: a sparse, zero-defaulted byte store addressed by signed
//! 64-bit integers, unbounded in both directions.

use std::collections::HashMap;
use vstd::prelude::*;

use crate::semantics::cell;

verus! {

broadcast use vstd::std_specs::hash::group_hash_axioms;

/// Sparse tape memory. Only written addresses are stored; every other
/// address reads as 0.
pub struct Tape {
    cells: HashMap<i64, u8>,
}

impl View for Tape {
    type V = Map<i64, u8>;

    closed spec fn view(&self) -> Map<i64, u8> {
        self.cells@
    }
}

impl Tape {
    /// A fresh tape with no written cell.
    pub fn new() -> (t: Tape)
        ensures
            t@ == Map::<i64, u8>::empty(),
    {
        Tape { cells: HashMap::new() }
    }

    /// Reading never fails: an address that was never written reads 0.
    pub fn read(&self, addr: i64) -> (b: u8)
        ensures
            b == cell(self@, addr),
    {
        match self.cells.get(&addr) {
            Some(b) => *b,
            None => 0,
        }
    }

    pub fn write(&mut self, addr: i64, val: u8)
        ensures
            final(self)@ == old(self)@.insert(addr, val),
    {
        self.cells.insert(addr, val);
    }

    /// Read-modify-write with 8-bit wraparound: 255 + 1 = 0.
    pub fn increment(&mut self, addr: i64)
        ensures
            final(self)@ == old(self)@.insert(addr, cell(old(self)@, addr).wrapping_add(1)),
    {
        let v = self.read(addr);
        self.write(addr, v.wrapping_add(1));
    }

    /// Read-modify-write with 8-bit wraparound: 0 - 1 = 255.
    pub fn decrement(&mut self, addr: i64)
        ensures
            final(self)@ == old(self)@.insert(addr, cell(old(self)@, addr).wrapping_sub(1)),
    {
        let v = self.read(addr);
        self.write(addr, v.wrapping_sub(1));
    }
}

} // verus!
