//! A parser for the longest non-empty run of accepted characters.
use vstd::prelude::*;
use crate::fail::{Fail, PResult};
use crate::input::Input;
use crate::parser::Parser;
use crate::str_input::{StrInput, byte_len, char_width, len_utf8, split_at_boundary, split_first_char, str_byte_len, str_starts_with, lemma_byte_len_take_step, lemma_byte_len_take_mono};
use super::{callable_on_chars, is_longest_run, scan_while};

verus! {

/// Consumes the longest run of characters the predicate accepts; fails
/// (backtracking, consuming nothing) when that run is empty.
pub struct TakeWhile1<F>(pub F);

/// A parser for the longest non-empty run of characters accepted by `f`.
pub fn take_while1<'a, F: Fn(char) -> bool>(f: F) -> (p: TakeWhile1<F>)
    ensures
        p.0 == f,
        <TakeWhile1<F> as Parser<StrInput<'a>>>::inv(&p) <==> (forall|c: char| call_requires(f, (c,))),
{
    TakeWhile1(f)
}

impl<'a, F: Fn(char) -> bool> Parser<StrInput<'a>> for TakeWhile1<F> {
    type Output = &'a str;
    type Error = String;

    open spec fn inv(&self) -> bool {
        callable_on_chars(self.0)
    }

    open spec fn spec_parse(&self, before: StrInput<'a>, after: StrInput<'a>, r: PResult<&'a str, String>) -> bool {
        exists|j: int| #[trigger] is_longest_run(self.0, before.rest(), j) && if j == 0 {
            &&& after == before
            &&& r matches Err(Fail::Backtrack(m))
                && m@ == "take_while1: expected at least one matching character"@
        } else {
            &&& r matches Ok(s) && s@ == before.rest().take(j)
            &&& after == before.at_index(before.index() + j)
        }
    }

    fn parse_next(&mut self, input: &mut StrInput<'a>) -> (r: PResult<&'a str, String>) {
        proof {
            input.lemma_wf();
            input.lemma_advanced_refl();
        }
        let remaining = input.as_str();
        let (consumed, Ghost(j)) = scan_while(&self.0, remaining);
        if consumed == 0 {
            proof {
                if j > 0 {
                    lemma_byte_len_take_mono(remaining@, 0, j);
                }
            }
            return Err(Fail::Backtrack("take_while1: expected at least one matching character".to_owned()));
        }
        let (taken, _) = split_at_boundary(remaining, consumed, Ghost(j));
        proof {
            if j == 0 {
                assert(remaining@.take(0) =~= Seq::<char>::empty());
            }
            input.lemma_at_index_advanced(input.index() + j);
        }
        input.advance(consumed, Ghost(j));
        Ok(taken)
    }
}

} // verus!
