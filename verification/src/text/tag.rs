//! A parser for a fixed string.
use vstd::prelude::*;
use crate::fail::{Fail, PResult};
use crate::input::Input;
use crate::parser::Parser;
use crate::str_input::{StrInput, byte_len, char_width, len_utf8, split_at_boundary, split_first_char, str_byte_len, str_starts_with, lemma_byte_len_take_step, lemma_byte_len_take_mono};
use crate::message::with_two_strs;

verus! {

/// Matches the string it holds.
pub struct Tag(pub &'static str);

/// A parser for the string `s`.
pub fn tag(s: &'static str) -> (p: Tag)
    ensures
        p.0 == s,
{
    Tag(s)
}

/// The longest prefix of `s` of at most `n` bytes that ends on a character boundary.
pub open spec fn prefix_within(s: Seq<char>, n: int) -> Seq<char> {
    s.take(longest_prefix_len(s, n))
}

/// Number of characters in `prefix_within(s, n)`.
pub open spec fn longest_prefix_len(s: Seq<char>, n: int) -> int
    decreases s.len(),
{
    if s.len() == 0 || char_width(s[0]) > n {
        0
    } else {
        1 + longest_prefix_len(s.drop_first(), n - char_width(s[0]))
    }
}

impl<'a> Parser<StrInput<'a>> for Tag {
    type Output = &'static str;
    type Error = String;

    open spec fn inv(&self) -> bool {
        true
    }

    /// On a match the tag is consumed and returned; otherwise nothing is consumed
    /// and the failure backtracks, quoting the tag and what was found instead.
    open spec fn spec_parse(&self, before: StrInput<'a>, after: StrInput<'a>, r: PResult<&'static str, String>) -> bool {
        let rest = before.rest();
        let t = self.0@;
        if t.len() <= rest.len() && rest.take(t.len() as int) == t {
            &&& r == Ok::<&'static str, Fail<String>>(self.0)
            &&& after == before.at_index(before.index() + t.len())
        } else {
            &&& after == before
            &&& r matches Err(Fail::Backtrack(m)) && m@ == "expected \""@ + t + "\", found \""@
                + prefix_within(rest, byte_len(t) as int) + "\""@
        }
    }

    fn parse_next(&mut self, input: &mut StrInput<'a>) -> (r: PResult<&'static str, String>) {
        proof {
            input.lemma_wf();
            input.lemma_advanced_refl();
        }
        let remaining = input.remaining();
        if str_starts_with(remaining, self.0) {
            let n = str_byte_len(self.0);
            proof {
                input.lemma_at_index_advanced(input.index() + self.0@.len());
            }
            input.advance(n, Ghost(self.0@.len() as int));
            Ok(self.0)
        } else {
            let n = str_byte_len(self.0);
            let found = take_prefix_within(remaining, n);
            Err(Fail::Backtrack(with_two_strs("expected \"", self.0, "\", found \"", found, "\"")))
        }
    }
}

/// The longest prefix of `s` of at most `n` bytes that ends on a character boundary.
fn take_prefix_within<'a>(s: &'a str, n: usize) -> (r: &'a str)
    ensures
        r@ == prefix_within(s@, n as int),
{
    let total = str_byte_len(s);
    let mut cur = s;
    let mut used: usize = 0;
    let ghost mut j: int = 0;
    proof {
        assert(s@.take(0) =~= Seq::<char>::empty());
        assert(s@.skip(0) =~= s@);
    }
    let mut go = true;
    while go && !cur.is_empty()
        invariant
            !go ==> longest_prefix_len(s@.skip(j), n - used) == 0,
            total == byte_len(s@),
            0 <= j <= s@.len(),
            cur@ == s@.skip(j),
            used == byte_len(s@.take(j)),
            used <= n,
            longest_prefix_len(s@, n as int) == j + longest_prefix_len(s@.skip(j), n - used),
        decreases cur@.len() + (if go { 1int } else { 0int }),
    {
        let (c, next) = split_first_char(cur);
        let w = len_utf8(c);
        if w > n - used {
            proof {
                assert(s@.skip(j)[0] == c);
            }
            go = false;
            continue;
        }
        proof {
            lemma_byte_len_take_step(s@, j);
            lemma_byte_len_take_mono(s@, j + 1, s@.len() as int);
            assert(s@.take(s@.len() as int) =~= s@);
            assert(s@.skip(j)[0] == c);
            assert(s@.skip(j).drop_first() =~= s@.skip(j + 1));
            assert(next@ =~= s@.skip(j + 1));
            j = j + 1;
        }
        used = used + w;
        cur = next;
    }
    proof {
        if cur@.len() == 0 {
            assert(longest_prefix_len(s@.skip(j), n - used) == 0);
        }
    }
    let (taken, _) = split_at_boundary(s, used, Ghost(j));
    taken
}

} // verus!
