//! An interpreter for BrainFetch, a Brainfuck-family tape language with a
//! few non-standard opcodes: indirect data-pointer jumps (`|`, `*`), a
//! pointer reset (`#`), and a fetch opcode (`@`) that decodes an HTTP
//! request (URL and headers) out of tape memory and stores the response
//! body back into memory.
//!
//! The engine itself is a synchronous state machine: `run` executes
//! opcodes until the program halts, the input is exhausted at a `,`, a
//! step budget runs out, or a fetch request has been decoded, in which
//! case the caller performs the network round trip, stores the response
//! body, and resumes.

use vstd::prelude::*;

pub mod gen_code;
pub mod laws;
pub mod machine;
pub mod semantics;
pub mod tape;

pub use gen_code::string_to_brainfuck;
pub use machine::{BrainFetchInterpreter, LoadError, RunOutcome, RunStatus};
pub use tape::Tape;

verus! {

/// Relies on String::push: appends one character at the end.
#[verifier::external_body]
pub(crate) fn push_char(s: &mut String, c: char)
    ensures
        final(s)@ == old(s)@.push(c),
{
    s.push(c);
}

} // verus!
