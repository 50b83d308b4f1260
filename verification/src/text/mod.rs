//! Text parsers over `StrInput`.
use vstd::prelude::*;
use crate::str_input::{StrInput, byte_len, char_width, len_utf8, split_at_boundary, split_first_char, str_byte_len, str_starts_with, lemma_byte_len_take_step, lemma_byte_len_take_mono};

pub mod char;
pub mod eof;
pub mod escaped;
pub mod identifier;
pub mod integer;
pub mod laws;
pub mod quoted;
pub mod quoted_string;
pub mod quoted_string_cow;
pub mod satisfy;
pub mod tag;
pub mod take_while0;
pub mod take_while1;

verus! {

/// `j` characters of `s` satisfy `f` (by what `f` returned) and, unless `s` ends
/// there, the next one does not: the longest run accepted by `f`.
pub open spec fn is_longest_run<F: Fn(char) -> bool>(f: F, s: Seq<char>, j: int) -> bool {
    &&& 0 <= j <= s.len()
    &&& forall|i: int| 0 <= i < j ==> call_ensures(f, (s[i],), true)
    &&& j < s.len() ==> call_ensures(f, (s[j],), false)
}

/// `f` may be called on every character.
pub open spec fn callable_on_chars<F: Fn(char) -> bool>(f: F) -> bool {
    forall|c: char| call_requires(f, (c,))
}

/// Scans the longest prefix of `s` whose characters `f` accepts; returns its byte
/// length and its length in characters.
pub fn scan_while<F: Fn(char) -> bool>(f: &F, s: &str) -> (res: (usize, Ghost<int>))
    requires
        callable_on_chars(*f),
    ensures
        is_longest_run(*f, s@, res.1@),
        res.0 == byte_len(s@.take(res.1@)),
{
    let total = str_byte_len(s);
    let mut cur = s;
    let mut consumed: usize = 0;
    let ghost mut j: int = 0;
    let mut go = true;
    proof {
        assert(s@.take(0) =~= Seq::<char>::empty());
        assert(s@.skip(0) =~= s@);
    }
    while go && !cur.is_empty()
        invariant
            callable_on_chars(*f),
            total == byte_len(s@),
            0 <= j <= s@.len(),
            cur@ == s@.skip(j),
            consumed == byte_len(s@.take(j)),
            forall|i: int| 0 <= i < j ==> call_ensures(*f, (s@[i],), true),
            !go ==> j < s@.len() && call_ensures(*f, (s@[j],), false),
        decreases cur@.len() + (if go { 1int } else { 0int }),
    {
        let (c, next) = split_first_char(cur);
        proof {
            assert(s@[j] == c);
        }
        if f(c) {
            proof {
                lemma_byte_len_take_step(s@, j);
                lemma_byte_len_take_mono(s@, j + 1, s@.len() as int);
                assert(s@.take(s@.len() as int) =~= s@);
                assert(next@ =~= s@.skip(j + 1));
            }
            consumed = consumed + len_utf8(c);
            cur = next;
            proof {
                j = j + 1;
            }
        } else {
            go = false;
        }
    }
    (consumed, Ghost(j))
}

} // verus!
