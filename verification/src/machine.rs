//! The interpreter: program loading with bracket-pair precomputation,
//! the fetch-decode-execute loop, and the decoding and storing of the
//! memory-encoded request/response data used by the fetch opcode.

use std::collections::HashMap;
use vstd::prelude::*;
use vstd::string::StrSliceExecFns;

use crate::push_char;
use crate::semantics::{
    cell, byte_to_char, chars_of_bytes, string_at, string_end, headers_at, request_headers_at,
    headers_match, depth, well_bracketed, is_bracket, jump_table_correct, lemma_string_end_bounds,
    lemma_run_from_extend, Cfg, Phase, phase, cfg_step, run_from,
};
use crate::tape::Tape;

verus! {

broadcast use vstd::std_specs::hash::group_hash_axioms;

/// The one load-time error: the program's brackets are not balanced and
/// well-nested. It is reported before any opcode executes.
#[derive(Debug, PartialEq, Eq, Structural)]
pub enum LoadError {
    MalformedProgram,
}

/// Why `run` returned.
pub enum RunStatus {
    /// The instruction pointer reached the program length.
    Halted,
    /// A `,` found no input byte left (fatal for the run).
    InputExhausted,
    /// An `@` decoded a non-empty URL: the machine is suspended. The
    /// caller performs the HTTP GET and, on success, stores the body
    /// with `store_string_in_memory` before calling `run` again.
    FetchPending { url: String, headers: Vec<(String, String)> },
    /// The step budget ran out mid-run; calling `run` again with the
    /// remaining input continues where this call stopped.
    StepLimit,
}

/// What a call to `run` produced: the output appended by `.`, the
/// number of input bytes consumed by `,`, and why execution stopped.
pub struct RunOutcome {
    pub output: String,
    pub consumed: usize,
    pub status: RunStatus,
}

/// The interpreter: an immutable program and jump table, the sparse
/// tape, the data pointer, and the instruction pointer.
pub struct BrainFetchInterpreter {
    memory: Tape,
    current: i64,
    instruction_current: usize,
    program: Vec<char>,
    bracket_pairs: HashMap<usize, usize>,
}

impl BrainFetchInterpreter {
    /// The tape contents.
    pub closed spec fn mem(self) -> Map<i64, u8> {
        self.memory@
    }

    /// The data pointer.
    pub closed spec fn dp(self) -> i64 {
        self.current
    }

    /// The instruction pointer.
    pub closed spec fn ip(self) -> int {
        self.instruction_current as int
    }

    /// The loaded program.
    pub closed spec fn prog(self) -> Seq<char> {
        self.program@
    }

    /// The precomputed bracket-pair jump table.
    pub closed spec fn jumps(self) -> Map<usize, usize> {
        self.bracket_pairs@
    }

    /// The jump table matches the program, and the instruction pointer
    /// is within bounds. Established by `new`, preserved by every
    /// method.
    pub open spec fn wf(self) -> bool {
        &&& jump_table_correct(self.prog(), self.jumps())
        &&& 0 <= self.ip() <= self.prog().len()
    }

    /// The machine's configuration, given how much input the current
    /// `run` has consumed and the output it has produced.
    pub open spec fn cfg(self, inpos: int, out: Seq<char>) -> Cfg {
        Cfg { mem: self.mem(), dp: self.dp(), ip: self.ip(), inpos, out }
    }

    /// Loads a program. Characters outside the opcode alphabet are
    /// retained positionally (they are no-ops at execution time).
    /// Succeeds if and only if the brackets are balanced and
    /// well-nested; on success the machine starts with an empty tape,
    /// data pointer 0 and instruction pointer 0.
    pub fn new(program: &str) -> (r: Result<BrainFetchInterpreter, LoadError>)
        ensures
            match r {
                Ok(m) => {
                    &&& well_bracketed(program@)
                    &&& m.wf()
                    &&& m.prog() == program@
                    &&& jump_table_correct(program@, m.jumps())
                    &&& m.mem() == Map::<i64, u8>::empty()
                    &&& m.dp() == 0
                    &&& m.ip() == 0
                },
                Err(e) => !well_bracketed(program@) && e == LoadError::MalformedProgram,
            },
    {
        let program: Vec<char> = chars_vec(program);
        let bracket_pairs = match Self::build_bracket_pairs(program.as_slice()) {
            Ok(t) => t,
            Err(e) => {
                return Err(e);
            },
        };
        Ok(
            BrainFetchInterpreter {
                memory: Tape::new(),
                current: 0,
                instruction_current: 0,
                program,
                bracket_pairs,
            },
        )
    }

    /// One left-to-right scan with a stack of pending `[` indices. On
    /// `]` the most recent pending `[` is paired with it, in both
    /// directions; an unmatched bracket on either side fails the load.
    pub fn build_bracket_pairs(program: &[char]) -> (r: Result<HashMap<usize, usize>, LoadError>)
        ensures
            match r {
                Ok(t) => well_bracketed(program@) && jump_table_correct(program@, t@),
                Err(e) => !well_bracketed(program@) && e == LoadError::MalformedProgram,
            },
    {
        let n = program.len();
        let mut pairs: HashMap<usize, usize> = HashMap::new();
        let mut stack: Vec<usize> = Vec::new();
        let mut k: usize = 0;
        while k < n
            invariant
                n == program@.len(),
                k <= n,
                forall|x: int|
                    0 <= x < stack@.len() ==> #[trigger] stack@[x] < k && program@[stack@[x] as int]
                        == '[' && depth(program@, stack@[x] as int) == x,
                forall|x: int, y: int| 0 <= x < y < stack@.len() ==> stack@[x] < stack@[y],
                forall|x: int, i: int|
                    #![trigger stack@[x], depth(program@, i)]
                    0 <= x < stack@.len() && stack@[x] < i <= k ==> depth(program@, i) > x,
                stack@.len() == depth(program@, k as int),
                forall|i: int| 0 <= i <= k ==> #[trigger] depth(program@, i) >= 0,
                forall|i: usize| #[trigger]
                    pairs@.dom().contains(i) <==> (i < k && is_bracket(program@[i as int])
                        && !stack@.contains(i)),
                forall|i: usize| #[trigger]
                    pairs@.dom().contains(i) ==> {
                        let j = pairs@[i];
                        &&& j < k
                        &&& pairs@.dom().contains(j)
                        &&& pairs@[j] == i
                        &&& (program@[i as int] == '[' ==> {
                            &&& i < j
                            &&& program@[j as int] == ']'
                            &&& depth(program@, j + 1) == depth(program@, i as int)
                            &&& forall|x: int|
                                i < x <= j ==> #[trigger] depth(program@, x) > depth(
                                    program@,
                                    i as int,
                                )
                        })
                        &&& (program@[i as int] == ']' ==> j < i && program@[j as int] == '[')
                    },
            decreases n - k,
        {
            let ghost st0 = stack@;
            let ghost p0 = pairs@;
            let c = program[k];
            proof {
                assert(depth(program@, k + 1) == depth(program@, k as int) + crate::semantics::bracket_delta(c));
            }
            if c == '[' {
                stack.push(k);
                proof {
                    assert forall|i: usize| #[trigger] stack@.contains(i) implies st0.contains(i)
                        || i == k by {
                        let x = choose|x: int| 0 <= x < stack@.len() && stack@[x] == i;
                        if x < st0.len() {
                            assert(st0[x] == i);
                        }
                    }
                    assert forall|i: usize|
                        pairs@.dom().contains(i) <==> (i < k + 1 && is_bracket(program@[i as int])
                            && !stack@.contains(i)) by {
                        if pairs@.dom().contains(i) {
                            assert(!st0.contains(i));
                            assert(i < k);
                            assert(stack@.contains(i) ==> st0.contains(i) || i == k);
                        }
                        if i < k + 1 && is_bracket(program@[i as int]) && !stack@.contains(i) {
                            if st0.contains(i) {
                                let x = choose|x: int| 0 <= x < st0.len() && st0[x] == i;
                                assert(stack@[x] == i);
                            }
                            assert(i != k) by {
                                assert(stack@[stack@.len() - 1] == k);
                            }
                        }
                    }
                }
            } else if c == ']' {
                match stack.pop() {
                    Some(start) => {
                        proof {
                            assert(st0.len() > 0);
                            assert(st0[st0.len() - 1] == start);
                            assert(st0.contains(start));
                            // the pending indices are strictly increasing, so
                            // the popped one occurs nowhere else
                            assert forall|i: usize| #[trigger] stack@.contains(i) implies
                                st0.contains(i) && i != start by {
                                let x = choose|x: int| 0 <= x < stack@.len() && stack@[x] == i;
                                assert(st0[x] == i);
                                assert(st0[x] < st0[st0.len() - 1]);
                            }
                            assert forall|i: usize|
                                st0.contains(i) && i != start implies stack@.contains(i) by {
                                let x = choose|x: int| 0 <= x < st0.len() && st0[x] == i;
                                assert(x != st0.len() - 1);
                                assert(stack@[x] == i);
                            }
                            assert(!pairs@.dom().contains(start));
                            assert(!pairs@.dom().contains(k));
                        }
                        pairs.insert(start, k);
                        pairs.insert(k, start);
                        proof {
                            assert(program@[start as int] == '[');
                            assert forall|i: usize|
                                pairs@.dom().contains(i) <==> (i < k + 1 && is_bracket(
                                    program@[i as int],
                                ) && !stack@.contains(i)) by {
                                if i == start || i == k {
                                    assert(pairs@.dom().contains(i));
                                    assert(!stack@.contains(i));
                                } else {
                                    assert(pairs@.dom().contains(i) <==> p0.dom().contains(i));
                                    assert(stack@.contains(i) <==> st0.contains(i));
                                }
                            }
                            assert forall|i: usize| #[trigger] pairs@.dom().contains(i) implies {
                                let j = pairs@[i];
                                &&& j < k + 1
                                &&& pairs@.dom().contains(j)
                                &&& pairs@[j] == i
                                &&& (program@[i as int] == '[' ==> {
                                    &&& i < j
                                    &&& program@[j as int] == ']'
                                    &&& depth(program@, j + 1) == depth(program@, i as int)
                                    &&& forall|x: int|
                                        i < x <= j ==> #[trigger] depth(program@, x) > depth(
                                            program@,
                                            i as int,
                                        )
                                })
                                &&& (program@[i as int] == ']' ==> j < i && program@[j as int]
                                    == '[')
                            } by {
                                if i == start {
                                    assert(pairs@[start] == k);
                                    assert(depth(program@, start as int) == st0.len() - 1);
                                    assert(depth(program@, k + 1) == st0.len() - 1);
                                    assert forall|x: int|
                                        start < x <= k implies #[trigger] depth(program@, x)
                                            > depth(program@, start as int) by {
                                        if x <= k {
                                            assert(depth(program@, x) > st0.len() - 1);
                                        }
                                    }
                                } else if i == k {
                                    assert(pairs@[k] == start);
                                } else {
                                    assert(p0.dom().contains(i));
                                    let j = p0[i];
                                    assert(j != start && j != k);
                                    assert(pairs@[i] == j && pairs@[j] == i);
                                }
                            }
                        }
                    },
                    None => {
                        proof {
                            assert(depth(program@, k + 1) < 0);
                            assert(!well_bracketed(program@));
                        }
                        return Err(LoadError::MalformedProgram);
                    },
                }
            } else {
                proof {
                    assert(!is_bracket(program@[k as int]));
                    assert forall|i: usize|
                        pairs@.dom().contains(i) <==> (i < k + 1 && is_bracket(program@[i as int])
                            && !stack@.contains(i)) by {}
                }
            }
            k += 1;
        }
        if stack.len() > 0 {
            proof {
                assert(depth(program@, n as int) == stack@.len() > 0);
                assert(!well_bracketed(program@));
            }
            return Err(LoadError::MalformedProgram);
        }
        proof {
            assert(well_bracketed(program@));
        }
        Ok(pairs)
    }
}

impl BrainFetchInterpreter {
    /// Reads the null-terminated byte string at `start`, one byte per
    /// character, and returns it together with the address at which the
    /// scan stopped (the terminating zero cell, capped at the last
    /// address).
    pub fn read_string_from_memory(&self, start: i64) -> (r: (String, i64))
        ensures
            r.0@ == chars_of_bytes(string_at(self.mem(), start)),
            r.1 as int == string_end(self.mem(), start),
    {
        let ghost mem = self.mem();
        let ghost full = string_at(mem, start);
        let mut s = String::new();
        let mut i = start;
        loop
            invariant_except_break
                self.mem() == mem,
                full == string_at(mem, start),
                start <= i,
                i - start <= full.len(),
                string_at(mem, i) == full.skip(i - start),
                string_end(mem, i) == string_end(mem, start),
                s@ == chars_of_bytes(full.take(i - start)),
            ensures
                s@ == chars_of_bytes(full),
                i as int == string_end(mem, start),
            decreases i64::MAX - i,
        {
            let b = self.memory.read(i);
            if b == 0 {
                proof {
                    assert(string_at(mem, i) =~= Seq::<u8>::empty());
                    assert(full.take(i - start) =~= full);
                }
                break ;
            }
            push_char(&mut s, b as char);
            proof {
                assert(full.skip(i - start)[0] == b);
                assert(full[i - start] == b);
                assert(chars_of_bytes(full.take(i - start + 1)) =~= chars_of_bytes(
                    full.take(i - start),
                ).push(byte_to_char(b)));
            }
            if i == i64::MAX {
                proof {
                    assert(string_at(mem, i) =~= seq![b]);
                    assert(i - start + 1 == full.len());
                    assert(full.take(i - start + 1) =~= full);
                    assert(string_end(mem, start) == i64::MAX);
                }
                break ;
            }
            proof {
                assert(string_at(mem, i) =~= seq![b] + string_at(mem, (i + 1) as i64));
                assert(string_at(mem, (i + 1) as i64) =~= string_at(mem, i).skip(1));
                assert(full.skip(i + 1 - start) =~= full.skip(i - start).skip(1));
                assert(full.skip(i + 1 - start) =~= string_at(mem, (i + 1) as i64));
                assert(string_at(mem, i).len() == 1 + string_at(mem, (i + 1) as i64).len());
                assert(string_end(mem, (i + 1) as i64) == string_end(mem, i));
            }
            i = i + 1;
        }
        (s, i)
    }

    /// Reads the (key, value) header pairs stored from `start` on:
    /// alternating null-terminated strings, until a key starts with a
    /// cell that reads 0 or the scan reaches an address that cannot be
    /// advanced past.
    pub fn read_headers_from_memory(&self, start: i64) -> (r: Vec<(String, String)>)
        ensures
            headers_match(r@, headers_at(self.mem(), start)),
    {
        let ghost mem = self.mem();
        let ghost full = headers_at(mem, start);
        let mut headers: Vec<(String, String)> = Vec::new();
        let mut i = start;
        loop
            invariant_except_break
                self.mem() == mem,
                full == headers_at(mem, start),
                headers@.len() <= full.len(),
                headers_at(mem, i) == full.skip(headers@.len() as int),
                headers_match(headers@, full.take(headers@.len() as int)),
            ensures
                headers_match(headers@, full),
            decreases i64::MAX - i,
        {
            let ghost done = headers@.len() as int;
            let b = self.memory.read(i);
            if b == 0 {
                proof {
                    assert(headers_at(mem, i) =~= Seq::<(Seq<u8>, Seq<u8>)>::empty());
                    assert(full.take(done) =~= full);
                }
                break ;
            }
            let (key, key_end) = self.read_string_from_memory(i);
            proof {
                lemma_string_end_bounds(mem, i);
            }
            if key_end == i64::MAX {
                proof {
                    assert(headers_at(mem, i) =~= Seq::<(Seq<u8>, Seq<u8>)>::empty());
                    assert(full.take(done) =~= full);
                }
                break ;
            }
            let (value, value_end) = self.read_string_from_memory(key_end + 1);
            proof {
                lemma_string_end_bounds(mem, (key_end + 1) as i64);
            }
            headers.push((key, value));
            proof {
                let pair = (string_at(mem, i), string_at(mem, (key_end + 1) as i64));
                assert(headers_at(mem, i)[0] == pair);
                assert(full.skip(done).len() > 0);
                assert(done < full.len());
                assert(full.skip(done)[0] == full[done]);
                assert(full[done] == pair);
                assert forall|x: int| 0 <= x < done + 1 implies {
                    &&& (#[trigger] headers@[x]).0@ == chars_of_bytes(full.take(done + 1)[x].0)
                    &&& headers@[x].1@ == chars_of_bytes(full.take(done + 1)[x].1)
                } by {
                    if x < done {
                        assert(headers@[x] == headers@.subrange(0, done)[x]);
                    }
                }
                assert(headers_match(headers@, full.take(done + 1)));
            }
            if value_end == i64::MAX {
                proof {
                    assert(headers_at(mem, i) =~= seq![
                        (string_at(mem, i), string_at(mem, (key_end + 1) as i64)),
                    ]);
                    assert(full.skip(done).len() == 1);
                    assert(done + 1 == full.len());
                    assert(full.take(done + 1) =~= full);
                }
                break ;
            }
            proof {
                let pair = (string_at(mem, i), string_at(mem, (key_end + 1) as i64));
                assert(headers_at(mem, i) =~= seq![pair] + headers_at(mem, (value_end + 1) as i64));
                assert(full.skip(done + 1) =~= full.skip(done).skip(1));
                assert(headers_at(mem, (value_end + 1) as i64) =~= full.skip(done + 1));
            }
            i = value_end + 1;
        }
        headers
    }

    /// Stores the UTF-8 bytes of `data` at the data pointer, followed
    /// by a terminating zero; every other cell is left unchanged. The
    /// data pointer, instruction pointer and program do not move.
    pub fn store_string_in_memory(&mut self, data: String)
        requires
            vstd::utf8::encode_utf8(data@).len() <= i64::MAX,
            old(self).dp() + vstd::utf8::encode_utf8(data@).len() <= i64::MAX,
        ensures
            final(self).dp() == old(self).dp(),
            final(self).ip() == old(self).ip(),
            final(self).prog() == old(self).prog(),
            final(self).jumps() == old(self).jumps(),
            final(self).wf() == old(self).wf(),
            forall|a: i64|
                cell(final(self).mem(), a) == {
                    let bytes = vstd::utf8::encode_utf8(data@);
                    if old(self).dp() <= a < old(self).dp() + bytes.len() {
                        bytes[a - old(self).dp()]
                    } else if a == old(self).dp() + bytes.len() {
                        0u8
                    } else {
                        cell(old(self).mem(), a)
                    }
                },
    {
        let ghost mem0 = self.mem();
        let ghost dp0 = self.dp();
        let bytes: Vec<u8> = data.as_str().as_bytes_vec();
        let n = bytes.len();
        let mut j: usize = 0;
        while j < n
            invariant
                bytes@ == vstd::utf8::encode_utf8(data@),
                n == bytes@.len(),
                n <= i64::MAX,
                j <= n,
                self.dp() == dp0,
                dp0 + n <= i64::MAX,
                self.ip() == old(self).ip(),
                self.prog() == old(self).prog(),
                self.jumps() == old(self).jumps(),
                self.current == dp0,
                forall|a: i64|
                    cell(self.mem(), a) == if dp0 <= a < dp0 + j {
                        bytes@[a - dp0]
                    } else {
                        cell(mem0, a)
                    },
            decreases n - j,
        {
            let addr = self.current + (j as i64);
            let ghost m1 = self.mem();
            self.memory.write(addr, bytes[j]);
            proof {
                assert forall|a: i64|
                    cell(self.mem(), a) == if dp0 <= a < dp0 + j + 1 {
                        bytes@[a - dp0]
                    } else {
                        cell(mem0, a)
                    } by {
                    if a != addr {
                        assert(cell(self.mem(), a) == cell(m1, a));
                    }
                }
            }
            j += 1;
        }
        let ghost m2 = self.mem();
        self.memory.write(self.current + (n as i64), 0);
        proof {
            assert forall|a: i64|
                cell(self.mem(), a) == {
                    let bytes = vstd::utf8::encode_utf8(data@);
                    if dp0 <= a < dp0 + bytes.len() {
                        bytes[a - dp0]
                    } else if a == dp0 + bytes.len() {
                        0u8
                    } else {
                        cell(mem0, a)
                    }
                } by {
                if a != dp0 + n {
                    assert(cell(self.mem(), a) == cell(m2, a));
                }
            }
        }
    }
}

/// What `run` promises: after some number `fuel` of pure steps from
/// `pre`'s configuration, big-step execution stops in the phase that
/// the returned status reports, with exactly the reported output and
/// input consumption. On a pending fetch the machine has already
/// stepped past the `@`, and the returned URL and headers are the ones
/// decoded from the tape at the data pointer.
pub open spec fn run_matches(
    pre: BrainFetchInterpreter,
    post: BrainFetchInterpreter,
    input: Seq<u8>,
    r: RunOutcome,
    fuel: nat,
) -> bool {
    let res = run_from(pre.prog(), pre.jumps(), pre.cfg(0, Seq::empty()), input, fuel);
    &&& res.cfg.inpos == r.consumed
    &&& r.output@ == res.cfg.out
    &&& match r.status {
        RunStatus::Halted => {
            &&& res.phase is Halted
            &&& post.cfg(r.consumed as int, r.output@) == res.cfg
        },
        RunStatus::InputExhausted => {
            &&& res.phase is InputExhausted
            &&& post.cfg(r.consumed as int, r.output@) == res.cfg
        },
        RunStatus::FetchPending { url, headers } => {
            &&& res.phase is FetchPaused
            &&& post.mem() == res.cfg.mem
            &&& post.dp() == res.cfg.dp
            &&& post.ip() == res.cfg.ip + 1
            &&& url@ == chars_of_bytes(string_at(res.cfg.mem, res.cfg.dp))
            &&& url@.len() > 0
            &&& headers_match(headers@, request_headers_at(res.cfg.mem, res.cfg.dp))
        },
        RunStatus::StepLimit => {
            &&& res.phase is Running
            &&& post.cfg(r.consumed as int, r.output@) == res.cfg
        },
    }
}

impl BrainFetchInterpreter {
    /// The fetch-decode-execute loop. Opcodes execute until the program
    /// halts, a `,` finds the input exhausted, an `@` decodes a
    /// non-empty URL and suspends the machine for the caller to resolve
    /// (an `@` with an empty URL is abandoned: no request is decoded,
    /// memory is untouched, and execution continues), or `max_steps`
    /// opcodes have executed. `,` consumes the given input from its
    /// start; `.` appends to the returned output.
    pub fn run(&mut self, input: &[u8], max_steps: u64) -> (r: RunOutcome)
        requires
            old(self).wf(),
        ensures
            final(self).wf(),
            final(self).prog() == old(self).prog(),
            final(self).jumps() == old(self).jumps(),
            r.consumed <= input@.len(),
            exists|fuel: nat|
                {
                    &&& #[trigger] run_matches(*old(self), *final(self), input@, r, fuel)
                    &&& fuel <= max_steps
                    &&& (r.status is StepLimit ==> fuel == max_steps)
                },
    {
        let ghost pre = *self;
        let ghost prog = self.prog();
        let ghost pairs = self.jumps();
        let ghost c0 = self.cfg(0, Seq::empty());
        let mut output = String::new();
        let mut inpos: usize = 0;
        let mut steps: u64 = 0;
        proof {
            assert(c0 == self.cfg(0 as int, output@));
        }
        loop
            invariant
                self.wf(),
                self.prog() == prog,
                self.jumps() == pairs,
                pre == *old(self),
                pre.prog() == prog,
                pre.jumps() == pairs,
                c0 == pre.cfg(0, Seq::empty()),
                inpos <= input@.len(),
                steps <= max_steps,
                run_from(prog, pairs, c0, input@, steps as nat) == run_from(
                    prog,
                    pairs,
                    self.cfg(inpos as int, output@),
                    input@,
                    0,
                ),
            decreases max_steps - steps,
        {
            let ghost fuel: nat = steps as nat;
            let ghost cur = self.cfg(inpos as int, output@);
            let ip = self.instruction_current;
            if ip >= self.program.len() {
                let r = RunOutcome { output, consumed: inpos, status: RunStatus::Halted };
                proof {
                    assert(phase(prog, cur, input@) is Halted);
                    assert(run_matches(pre, *self, input@, r, fuel));
                }
                return r;
            }
            let op = self.program[ip];
            if op == ',' && inpos >= input.len() {
                let r = RunOutcome { output, consumed: inpos, status: RunStatus::InputExhausted };
                proof {
                    assert(phase(prog, cur, input@) is InputExhausted);
                    assert(run_matches(pre, *self, input@, r, fuel));
                }
                return r;
            }
            if op == '@' {
                let (url, url_end) = self.read_string_from_memory(self.current);
                if !url.as_str().is_empty() {
                    proof {
                        lemma_string_end_bounds(cur.mem, cur.dp);
                        assert(url@.len() == string_at(cur.mem, cur.dp).len());
                        assert(phase(prog, cur, input@) is FetchPaused);
                    }
                    let headers = if url_end > i64::MAX - 2 {
                        Vec::new()
                    } else {
                        self.read_headers_from_memory(url_end + 2)
                    };
                    self.instruction_current = ip + 1;
                    let r = RunOutcome {
                        output,
                        consumed: inpos,
                        status: RunStatus::FetchPending { url, headers },
                    };
                    proof {
                        assert(headers_match(
                            r.status->FetchPending_headers@,
                            request_headers_at(cur.mem, cur.dp),
                        ));
                        assert(run_matches(pre, *self, input@, r, fuel));
                    }
                    return r;
                }
            }
            proof {
                assert(phase(prog, cur, input@) is Running);
            }
            if steps == max_steps {
                let r = RunOutcome { output, consumed: inpos, status: RunStatus::StepLimit };
                proof {
                    assert(run_matches(pre, *self, input@, r, fuel));
                }
                return r;
            }
            match op {
                '>' => {
                    self.current = self.current.wrapping_add(1);
                    self.instruction_current = ip + 1;
                },
                '<' => {
                    self.current = self.current.wrapping_sub(1);
                    self.instruction_current = ip + 1;
                },
                '+' => {
                    self.memory.increment(self.current);
                    self.instruction_current = ip + 1;
                },
                '-' => {
                    self.memory.decrement(self.current);
                    self.instruction_current = ip + 1;
                },
                '.' => {
                    let b = self.memory.read(self.current);
                    push_char(&mut output, b as char);
                    self.instruction_current = ip + 1;
                },
                ',' => {
                    let b = *vstd::slice::slice_index_get(input, inpos);
                    self.memory.write(self.current, b);
                    inpos = inpos + 1;
                    self.instruction_current = ip + 1;
                },
                '[' => {
                    let b = self.memory.read(self.current);
                    if b == 0 {
                        proof {
                            assert(pairs.dom().contains(ip));
                        }
                        let target = match self.bracket_pairs.get(&ip) {
                            Some(t) => *t,
                            None => {
                                proof {
                                    assert(false);
                                }
                                0
                            },
                        };
                        self.instruction_current = target + 1;
                    } else {
                        self.instruction_current = ip + 1;
                    }
                },
                ']' => {
                    let b = self.memory.read(self.current);
                    if b != 0 {
                        proof {
                            assert(pairs.dom().contains(ip));
                        }
                        let target = match self.bracket_pairs.get(&ip) {
                            Some(t) => *t,
                            None => {
                                proof {
                                    assert(false);
                                }
                                0
                            },
                        };
                        self.instruction_current = target + 1;
                    } else {
                        self.instruction_current = ip + 1;
                    }
                },
                '|' => {
                    let b = self.memory.read(self.current);
                    self.current = self.current.wrapping_sub(b as i64);
                    self.instruction_current = ip + 1;
                },
                '*' => {
                    let b = self.memory.read(self.current);
                    self.current = self.current.wrapping_add(b as i64);
                    self.instruction_current = ip + 1;
                },
                '#' => {
                    self.current = 0;
                    self.instruction_current = ip + 1;
                },
                _ => {
                    self.instruction_current = ip + 1;
                },
            }
            proof {
                assert(cfg_step(prog, pairs, cur, input@) == self.cfg(inpos as int, output@));
                lemma_run_from_extend(prog, pairs, c0, input@, fuel);
            }
            steps = steps + 1;
        }
    }
}

impl BrainFetchInterpreter {
    /// The current data pointer.
    pub fn data_pointer(&self) -> (r: i64)
        ensures
            r == self.dp(),
    {
        self.current
    }

    /// The current instruction pointer.
    pub fn instruction_pointer(&self) -> (r: usize)
        ensures
            r as int == self.ip(),
    {
        self.instruction_current
    }

    /// Reads one tape cell; an address that was never written reads 0.
    pub fn read_cell(&self, addr: i64) -> (b: u8)
        ensures
            b == cell(self.mem(), addr),
    {
        self.memory.read(addr)
    }
}

/// Collects the characters of a string slice.
fn chars_vec(s: &str) -> (v: Vec<char>)
    ensures
        v@ == s@,
{
    let n = s.unicode_len();
    let mut v: Vec<char> = Vec::new();
    let mut i: usize = 0;
    while i < n
        invariant
            i <= n,
            n == s@.len(),
            v@ == s@.take(i as int),
        decreases n - i,
    {
        let c = s.get_char(i);
        v.push(c);
        proof {
            assert(v@ =~= s@.take(i + 1));
        }
        i += 1;
    }
    proof {
        assert(v@ =~= s@);
    }
    v
}

} // verus!
