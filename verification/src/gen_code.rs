//! Turning a literal string into a program that lays the string's
//! bytes out in consecutive tape cells.

use vstd::prelude::*;

use crate::push_char;

verus! {

/// The opcode expansion of one character: its low byte as a run of
/// `+` in the current cell, then `>` to move on.
pub open spec fn char_encoding(c: char) -> Seq<char> {
    Seq::new((c as u32 % 256) as nat, |x: int| '+') + seq!['>']
}

/// The opcode expansion of a whole string, character by character.
pub open spec fn brainfuck_encoding(s: Seq<char>) -> Seq<char>
    decreases s.len(),
{
    if s.len() == 0 {
        Seq::empty()
    } else {
        char_encoding(s[0]) + brainfuck_encoding(s.drop_first())
    }
}

proof fn lemma_encoding_snoc(s: Seq<char>, c: char)
    ensures
        brainfuck_encoding(s.push(c)) == brainfuck_encoding(s) + char_encoding(c),
    decreases s.len(),
{
    if s.len() == 0 {
        assert(s.push(c).drop_first() =~= Seq::<char>::empty());
        assert(s.push(c)[0] == c);
        assert(brainfuck_encoding(s.push(c)) == char_encoding(c) + brainfuck_encoding(
            s.push(c).drop_first(),
        ));
        assert(brainfuck_encoding(s.push(c).drop_first()) == Seq::<char>::empty());
        assert(brainfuck_encoding(s) == Seq::<char>::empty());
        assert(char_encoding(c) + Seq::<char>::empty() =~= char_encoding(c));
        assert(Seq::<char>::empty() + char_encoding(c) =~= char_encoding(c));
    } else {
        lemma_encoding_snoc(s.drop_first(), c);
        assert(s.push(c).drop_first() =~= s.drop_first().push(c));
        assert(s.push(c)[0] == s[0]);
        assert(brainfuck_encoding(s.push(c)) == char_encoding(s[0]) + (brainfuck_encoding(
            s.drop_first(),
        ) + char_encoding(c)));
        assert(char_encoding(s[0]) + (brainfuck_encoding(s.drop_first()) + char_encoding(c)) =~= (
        char_encoding(s[0]) + brainfuck_encoding(s.drop_first())) + char_encoding(c));
    }
}

/// Writes a program that, run on a fresh machine, stores the string's
/// bytes in consecutive cells starting at the origin: for each
/// character, its low byte as a run of `+`, then `>`.
pub fn string_to_brainfuck(input: &str) -> (r: String)
    ensures
        r@ == brainfuck_encoding(input@),
{
    let n = input.unicode_len();
    let mut out = String::new();
    let mut i: usize = 0;
    while i < n
        invariant
            i <= n,
            n == input@.len(),
            out@ == brainfuck_encoding(input@.take(i as int)),
        decreases n - i,
    {
        let c = input.get_char(i);
        let code: u8 = ((c as u32) % 256) as u8;
        let ghost base = out@;
        let mut j: u8 = 0;
        while j < code
            invariant
                j <= code,
                out@ == base + Seq::new(j as nat, |x: int| '+'),
            decreases code - j,
        {
            push_char(&mut out, '+');
            proof {
                assert(out@ =~= base + Seq::new((j + 1) as nat, |x: int| '+'));
            }
            j += 1;
        }
        push_char(&mut out, '>');
        proof {
            lemma_encoding_snoc(input@.take(i as int), input@[i as int]);
            assert(char_encoding(input@[i as int]) =~= Seq::new(code as nat, |x: int| '+').push(
                '>',
            ));
            assert(input@.take(i + 1) =~= input@.take(i as int).push(input@[i as int]));
            assert(out@ =~= brainfuck_encoding(input@.take(i + 1)));
        }
        i += 1;
    }
    proof {
        assert(input@.take(n as int) =~= input@);
    }
    out
}

} // verus!
