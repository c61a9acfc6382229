//! The mathematical model of the machine: tape cells, the decoding of
//! null-terminated strings and header lists out of tape memory, bracket
//! matching, and the small-step semantics of every opcode.

use vstd::prelude::*;

verus! {

/// The value of a tape cell. The tape is sparse: an address that was
/// never written reads as 0.
pub open spec fn cell(mem: Map<i64, u8>, addr: i64) -> u8 {
    if mem.dom().contains(addr) {
        mem[addr]
    } else {
        0u8
    }
}

/// Bytes are turned into text one byte per character, as `b as char`.
pub open spec fn byte_to_char(b: u8) -> char {
    b as char
}

/// The character sequence that a byte sequence decodes to, one byte per
/// character.
pub open spec fn chars_of_bytes(s: Seq<u8>) -> Seq<char> {
    s.map_values(|b: u8| byte_to_char(b))
}

/// The null-terminated byte string stored in memory at `start`: the
/// scan runs over increasing addresses and stops at the first cell that
/// reads 0 (written as zero or never written at all). It does not run
/// past the end of the address space.
pub open spec fn string_at(mem: Map<i64, u8>, start: i64) -> Seq<u8>
    decreases i64::MAX - start,
{
    if cell(mem, start) == 0 {
        Seq::empty()
    } else if start == i64::MAX {
        seq![cell(mem, start)]
    } else {
        seq![cell(mem, start)] + string_at(mem, (start + 1) as i64)
    }
}

/// The address at which the scan of `string_at(mem, start)` stops: the
/// address of the terminating zero cell, capped at the last address.
pub open spec fn string_end(mem: Map<i64, u8>, start: i64) -> int {
    if start + string_at(mem, start).len() > i64::MAX {
        i64::MAX as int
    } else {
        start + string_at(mem, start).len()
    }
}

/// The scan of a string stops no earlier than its start and never past
/// the end of the address space.
pub proof fn lemma_string_end_bounds(mem: Map<i64, u8>, start: i64)
    ensures
        start <= string_end(mem, start) <= i64::MAX,
{
}

/// The (key, value) pairs stored in memory from `i` on: alternating
/// null-terminated strings, until a key starts with a cell that reads 0.
/// A pair whose key scan already reached the end of the address space is
/// dropped, since its value cannot be read.
pub open spec fn headers_at(mem: Map<i64, u8>, i: i64) -> Seq<(Seq<u8>, Seq<u8>)>
    decreases i64::MAX - i,
{
    if cell(mem, i) == 0 {
        Seq::empty()
    } else {
        let key = string_at(mem, i);
        let key_end = string_end(mem, i);
        if key_end >= i64::MAX {
            Seq::empty()
        } else {
            let value_start = (key_end + 1) as i64;
            let value = string_at(mem, value_start);
            let value_end = string_end(mem, value_start);
            if value_end >= i64::MAX {
                seq![(key, value)]
            } else {
                seq![(key, value)] + headers_at(mem, (value_end + 1) as i64)
            }
        }
    }
}

/// The header list of the request descriptor based at `base`: the URL's
/// terminator is skipped, one more byte is skipped (the encoding
/// convention), and the header pairs begin right after.
pub open spec fn request_headers_at(mem: Map<i64, u8>, base: i64) -> Seq<(Seq<u8>, Seq<u8>)> {
    if string_end(mem, base) + 2 > i64::MAX {
        Seq::empty()
    } else {
        headers_at(mem, (string_end(mem, base) + 2) as i64)
    }
}

/// How a decoded header list is rendered as strings: pairwise, one byte
/// per character.
pub open spec fn headers_match(rendered: Seq<(String, String)>, decoded: Seq<(Seq<u8>, Seq<u8>)>) -> bool {
    &&& rendered.len() == decoded.len()
    &&& forall|i: int|
        0 <= i < decoded.len() ==> {
            &&& (#[trigger] rendered[i]).0@ == chars_of_bytes(decoded[i].0)
            &&& rendered[i].1@ == chars_of_bytes(decoded[i].1)
        }
}

// ---------------------------------------------------------------------
// Bracket matching
// ---------------------------------------------------------------------

/// The contribution of one character to the bracket nesting depth.
pub open spec fn bracket_delta(c: char) -> int {
    if c == '[' {
        1int
    } else if c == ']' {
        -1int
    } else {
        0int
    }
}

/// The bracket nesting depth of the prefix `s[..i]`.
pub open spec fn depth(s: Seq<char>, i: int) -> int
    decreases i,
{
    if i <= 0 {
        0int
    } else {
        depth(s, i - 1) + bracket_delta(s[i - 1])
    }
}

/// A program's brackets are balanced and well-nested: no prefix closes
/// more brackets than it opened, and at the end every bracket is closed.
pub open spec fn well_bracketed(s: Seq<char>) -> bool {
    &&& forall|i: int| 0 <= i <= s.len() ==> #[trigger] depth(s, i) >= 0
    &&& depth(s, s.len() as int) == 0
}

pub open spec fn is_bracket(c: char) -> bool {
    c == '[' || c == ']'
}

/// The jump table pairs every bracket index with its matching partner:
/// it is total over the bracket indices, an involution, and sends every
/// `[` forward to the `]` that closes it and every `]` backward to the
/// `[` it closes. The partner of a `[` is pinned by the nesting depth:
/// the depth right after the `]` returns to the depth right before the
/// `[`, and strictly exceeds it everywhere in between.
pub open spec fn jump_table_correct(s: Seq<char>, t: Map<usize, usize>) -> bool {
    &&& forall|i: int|
        0 <= i < s.len() && is_bracket(s[i]) ==> #[trigger] t.dom().contains(i as usize)
    &&& forall|i: usize|
        #[trigger] t.dom().contains(i) ==> {
            let j = t[i];
            &&& i < s.len()
            &&& is_bracket(s[i as int])
            &&& j < s.len()
            &&& t.dom().contains(j)
            &&& t[j] == i
            &&& (s[i as int] == '[' ==> {
                &&& i < j
                &&& s[j as int] == ']'
                &&& depth(s, j + 1) == depth(s, i as int)
                &&& forall|x: int| i < x <= j ==> #[trigger] depth(s, x) > depth(s, i as int)
            })
            &&& (s[i as int] == ']' ==> j < i && s[j as int] == '[')
        }
}

/// LAW: a `[` has exactly one matching `]`: no two indices can both
/// close the bracket opened at `i`, since the nesting depth returns to
/// its level at `i` only once.
pub proof fn lemma_matching_bracket_unique(s: Seq<char>, i: int, j1: int, j2: int)
    requires
        0 <= i < j1 <= s.len(),
        i < j2 <= s.len(),
        depth(s, j1) == depth(s, i),
        depth(s, j2) == depth(s, i),
        forall|x: int| i < x < j1 ==> #[trigger] depth(s, x) > depth(s, i),
        forall|x: int| i < x < j2 ==> #[trigger] depth(s, x) > depth(s, i),
    ensures
        j1 == j2,
{
    if j1 < j2 {
        assert(depth(s, j1) > depth(s, i));
    } else if j2 < j1 {
        assert(depth(s, j2) > depth(s, i));
    }
}

/// LAW: on every bracket index the jump table is an involution —
/// following it twice returns to the index one started from.
pub proof fn lemma_jump_table_involution(s: Seq<char>, t: Map<usize, usize>, i: usize)
    requires
        jump_table_correct(s, t),
        t.dom().contains(i),
    ensures
        t.dom().contains(t[i]),
        t[t[i]] == i,
{
}

// ---------------------------------------------------------------------
// Small-step semantics
// ---------------------------------------------------------------------

/// One configuration of the running machine: the tape, the data pointer,
/// the instruction pointer, how much input has been consumed, and the
/// output produced so far.
#[verifier::ext_equal]
pub struct Cfg {
    pub mem: Map<i64, u8>,
    pub dp: i64,
    pub ip: int,
    pub inpos: int,
    pub out: Seq<char>,
}

/// Why a configuration cannot (or can) take a pure step.
pub enum Phase {
    /// The next opcode executes without outside help.
    Running,
    /// The instruction pointer has reached the program length.
    Halted,
    /// The next opcode is `,` and the input is exhausted (fatal).
    InputExhausted,
    /// The next opcode is `@` and the decoded URL is non-empty: the
    /// machine suspends until the caller resolves the request.
    FetchPaused,
}

pub open spec fn phase(prog: Seq<char>, c: Cfg, input: Seq<u8>) -> Phase {
    if !(0 <= c.ip < prog.len()) {
        Phase::Halted
    } else if prog[c.ip] == ',' && c.inpos >= input.len() {
        Phase::InputExhausted
    } else if prog[c.ip] == '@' && string_at(c.mem, c.dp).len() > 0 {
        Phase::FetchPaused
    } else {
        Phase::Running
    }
}

/// The effect of the opcode at `c.ip`, for a configuration whose phase
/// is `Running`. Every opcode advances the instruction pointer by one;
/// a taken bracket jump advances it to just past the matching bracket.
/// Data-pointer arithmetic wraps around the 64-bit address space; cell
/// arithmetic wraps modulo 256. A character outside the opcode alphabet
/// is a no-op, and so is `@` with an empty decoded URL (the fetch is
/// abandoned; memory is left unchanged).
pub open spec fn cfg_step(prog: Seq<char>, pairs: Map<usize, usize>, c: Cfg, input: Seq<u8>) -> Cfg
    recommends
        phase(prog, c, input) is Running,
{
    let op = prog[c.ip];
    if op == '>' {
        Cfg { dp: c.dp.wrapping_add(1), ip: c.ip + 1, ..c }
    } else if op == '<' {
        Cfg { dp: c.dp.wrapping_sub(1), ip: c.ip + 1, ..c }
    } else if op == '+' {
        Cfg { mem: c.mem.insert(c.dp, cell(c.mem, c.dp).wrapping_add(1)), ip: c.ip + 1, ..c }
    } else if op == '-' {
        Cfg { mem: c.mem.insert(c.dp, cell(c.mem, c.dp).wrapping_sub(1)), ip: c.ip + 1, ..c }
    } else if op == '.' {
        Cfg { out: c.out.push(byte_to_char(cell(c.mem, c.dp))), ip: c.ip + 1, ..c }
    } else if op == ',' {
        Cfg { mem: c.mem.insert(c.dp, input[c.inpos]), inpos: c.inpos + 1, ip: c.ip + 1, ..c }
    } else if op == '[' {
        Cfg {
            ip: if cell(c.mem, c.dp) == 0 {
                pairs[c.ip as usize] + 1
            } else {
                c.ip + 1
            },
            ..c
        }
    } else if op == ']' {
        Cfg {
            ip: if cell(c.mem, c.dp) != 0 {
                pairs[c.ip as usize] + 1
            } else {
                c.ip + 1
            },
            ..c
        }
    } else if op == '|' {
        Cfg { dp: c.dp.wrapping_sub(cell(c.mem, c.dp) as i64), ip: c.ip + 1, ..c }
    } else if op == '*' {
        Cfg { dp: c.dp.wrapping_add(cell(c.mem, c.dp) as i64), ip: c.ip + 1, ..c }
    } else if op == '#' {
        Cfg { dp: 0i64, ip: c.ip + 1, ..c }
    } else {
        // `@` with an empty URL, or a character outside the alphabet
        Cfg { ip: c.ip + 1, ..c }
    }
}

/// A configuration together with the phase execution stopped in;
/// `Running` means the step budget ran out first.
#[verifier::ext_equal]
pub struct RunResult {
    pub cfg: Cfg,
    pub phase: Phase,
}

/// Big-step execution: take pure steps until the machine halts, fails
/// on exhausted input, suspends for a fetch, or `fuel` steps have been
/// taken.
pub open spec fn run_from(
    prog: Seq<char>,
    pairs: Map<usize, usize>,
    c: Cfg,
    input: Seq<u8>,
    fuel: nat,
) -> RunResult
    decreases fuel,
{
    if !(phase(prog, c, input) is Running) {
        RunResult { cfg: c, phase: phase(prog, c, input) }
    } else if fuel == 0 {
        RunResult { cfg: c, phase: Phase::Running }
    } else {
        run_from(prog, pairs, cfg_step(prog, pairs, c, input), input, (fuel - 1) as nat)
    }
}

/// Executing for one more step than before means taking one pure step
/// from wherever the previous budget stopped, provided it stopped only
/// for want of fuel.
pub proof fn lemma_run_from_extend(
    prog: Seq<char>,
    pairs: Map<usize, usize>,
    c: Cfg,
    input: Seq<u8>,
    fuel: nat,
)
    requires
        run_from(prog, pairs, c, input, fuel).phase is Running,
    ensures
        run_from(prog, pairs, c, input, fuel + 1) == run_from(
            prog,
            pairs,
            cfg_step(prog, pairs, run_from(prog, pairs, c, input, fuel).cfg, input),
            input,
            0,
        ),
    decreases fuel,
{
    if fuel == 0 {
    } else {
        lemma_run_from_extend(prog, pairs, cfg_step(prog, pairs, c, input), input, (fuel - 1) as nat);
    }
}

} // verus!
