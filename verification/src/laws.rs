//! The machine's general laws, stated over the small-step semantics
//! and proved once and for all.

use vstd::prelude::*;

use crate::semantics::{cell, string_at, phase, cfg_step, Cfg, Phase};

verus! {

/// LAW: `+` then `-` on the same cell restores every cell of the tape
/// to its prior value — the two opcodes are inverse modulo 256 for any
/// starting cell value — and no cell value ever leaves the 0–255
/// range.
pub proof fn lemma_increment_then_decrement(
    prog: Seq<char>,
    pairs: Map<usize, usize>,
    c: Cfg,
    input: Seq<u8>,
)
    requires
        phase(prog, c, input) is Running,
        prog[c.ip] == '+',
        c.ip + 1 < prog.len(),
        prog[c.ip + 1] == '-',
    ensures
        ({
            let after = cfg_step(prog, pairs, cfg_step(prog, pairs, c, input), input);
            &&& forall|a: i64| cell(after.mem, a) == cell(c.mem, a)
            &&& after.dp == c.dp
            &&& after.ip == c.ip + 2
            &&& after.out == c.out
            &&& forall|a: i64| 0 <= #[trigger] cell(after.mem, a) <= 255
        }),
{
    let mid = cfg_step(prog, pairs, c, input);
    assert(phase(prog, mid, input) is Running);
    let after = cfg_step(prog, pairs, mid, input);
    let v = cell(c.mem, c.dp);
    assert(v.wrapping_add(1).wrapping_sub(1) == v);
    assert forall|a: i64| cell(after.mem, a) == cell(c.mem, a) by {
        if a != c.dp {
            assert(cell(after.mem, a) == cell(mid.mem, a));
            assert(cell(mid.mem, a) == cell(c.mem, a));
        }
    }
}

/// LAW: reading an address that was never written yields 0.
pub proof fn lemma_unwritten_cell_reads_zero(mem: Map<i64, u8>, addr: i64)
    requires
        !mem.dom().contains(addr),
    ensures
        cell(mem, addr) == 0,
{
}

/// LAW: `#` resets the data pointer to exactly 0, whatever its prior
/// value, and touches nothing else.
pub proof fn lemma_reset_data_pointer(
    prog: Seq<char>,
    pairs: Map<usize, usize>,
    c: Cfg,
    input: Seq<u8>,
)
    requires
        phase(prog, c, input) is Running,
        prog[c.ip] == '#',
    ensures
        cfg_step(prog, pairs, c, input) == (Cfg { dp: 0i64, ip: c.ip + 1, ..c }),
{
}

/// LAW: `|` and `*` with a current cell of 0 leave the data pointer
/// where it is.
pub proof fn lemma_indirect_jump_zero(
    prog: Seq<char>,
    pairs: Map<usize, usize>,
    c: Cfg,
    input: Seq<u8>,
)
    requires
        phase(prog, c, input) is Running,
        prog[c.ip] == '|' || prog[c.ip] == '*',
        cell(c.mem, c.dp) == 0,
    ensures
        cfg_step(prog, pairs, c, input).dp == c.dp,
        cfg_step(prog, pairs, c, input).mem == c.mem,
{
}

/// LAW: with a current cell of value v, `|` moves the data pointer
/// back by exactly v and `*` forward by exactly v, whenever the move
/// stays within the address space (at its very ends the pointer wraps
/// instead).
pub proof fn lemma_indirect_jump_moves(
    prog: Seq<char>,
    pairs: Map<usize, usize>,
    c: Cfg,
    input: Seq<u8>,
)
    requires
        phase(prog, c, input) is Running,
    ensures
        prog[c.ip] == '|' && i64::MIN <= c.dp - cell(c.mem, c.dp) ==> cfg_step(
            prog,
            pairs,
            c,
            input,
        ).dp == c.dp - cell(c.mem, c.dp),
        prog[c.ip] == '*' && c.dp + cell(c.mem, c.dp) <= i64::MAX ==> cfg_step(
            prog,
            pairs,
            c,
            input,
        ).dp == c.dp + cell(c.mem, c.dp),
{
}

/// LAW: an `@` whose decoded URL is empty does not suspend the machine
/// (so no request ever leaves it), and apart from the instruction
/// pointer moving on it changes nothing: memory, data pointer, output
/// and input position all stay as they were.
pub proof fn lemma_fetch_empty_url(
    prog: Seq<char>,
    pairs: Map<usize, usize>,
    c: Cfg,
    input: Seq<u8>,
)
    requires
        0 <= c.ip < prog.len(),
        prog[c.ip] == '@',
        string_at(c.mem, c.dp).len() == 0,
    ensures
        phase(prog, c, input) is Running,
        cfg_step(prog, pairs, c, input) == (Cfg { ip: c.ip + 1, ..c }),
{
}

} // verus!

