//! A parser for the longest run of accepted characters, possibly empty.
use vstd::prelude::*;
use crate::error::ParseError;
use crate::fail::{Fail, PResult};
use crate::input::Input;
use crate::parser::Parser;
use crate::str_input::{StrInput, byte_len, char_width, len_utf8, split_at_boundary, split_first_char, str_byte_len, str_starts_with, lemma_byte_len_take_step, lemma_byte_len_take_mono};
use super::{callable_on_chars, is_longest_run, scan_while};

verus! {

/// Consumes the longest run of characters the predicate accepts; never fails.
pub struct TakeWhile0<F>(pub F);

/// A parser for the longest (possibly empty) run of characters accepted by `f`.
pub fn take_while0<'a, F: Fn(char) -> bool>(f: F) -> (p: TakeWhile0<F>)
    ensures
        p.0 == f,
        <TakeWhile0<F> as Parser<StrInput<'a>>>::inv(&p) <==> (forall|c: char| call_requires(f, (c,))),
{
    TakeWhile0(f)
}

impl<'a, F: Fn(char) -> bool> Parser<StrInput<'a>> for TakeWhile0<F> {
    type Output = &'a str;
    type Error = ParseError;

    open spec fn inv(&self) -> bool {
        callable_on_chars(self.0)
    }

    /// Returns and consumes the longest accepted run.
    open spec fn spec_parse(&self, before: StrInput<'a>, after: StrInput<'a>, r: PResult<&'a str, ParseError>) -> bool {
        exists|j: int| #[trigger] is_longest_run(self.0, before.rest(), j) && {
            &&& r matches Ok(s) && s@ == before.rest().take(j)
            &&& after == before.at_index(before.index() + j)
        }
    }

    fn parse_next(&mut self, input: &mut StrInput<'a>) -> (r: PResult<&'a str, ParseError>) {
        proof {
            input.lemma_wf();
        }
        let remaining = input.as_str();
        let (consumed, Ghost(j)) = scan_while(&self.0, remaining);
        let (taken, _) = split_at_boundary(remaining, consumed, Ghost(j));
        proof {
            input.lemma_at_index_advanced(input.index() + j);
        }
        input.advance(consumed, Ghost(j));
        Ok(taken)
    }
}

} // verus!
