//! A parser for one character accepted by a predicate.
use vstd::prelude::*;
use crate::fail::{Fail, PResult};
use crate::input::Input;
use crate::parser::Parser;
use crate::str_input::{StrInput, byte_len, char_width, len_utf8, split_at_boundary, split_first_char, str_byte_len, str_starts_with, lemma_byte_len_take_step, lemma_byte_len_take_mono};
use crate::message::with_char;
use super::callable_on_chars;

verus! {

/// Matches one character for which the predicate returns `true`.
pub struct Satisfy<F>(pub F);

/// A parser for one character accepted by `f`.
pub fn satisfy<'a, F: Fn(char) -> bool>(f: F) -> (p: Satisfy<F>)
    ensures
        p.0 == f,
        <Satisfy<F> as Parser<StrInput<'a>>>::inv(&p) <==> (forall|c: char| call_requires(f, (c,))),
{
    Satisfy(f)
}

impl<'a, F: Fn(char) -> bool> Parser<StrInput<'a>> for Satisfy<F> {
    type Output = char;
    type Error = String;

    open spec fn inv(&self) -> bool {
        callable_on_chars(self.0)
    }

    /// Consumes and returns the next character when the predicate accepts it;
    /// otherwise consumes nothing and backtracks, naming the rejected character.
    open spec fn spec_parse(&self, before: StrInput<'a>, after: StrInput<'a>, r: PResult<char, String>) -> bool {
        let rest = before.rest();
        if rest.len() == 0 {
            &&& after == before
            &&& r matches Err(Fail::Backtrack(m)) && m@ == "satisfy: unexpected EOF"@
        } else {
            exists|b: bool| #[trigger] call_ensures(self.0, (rest[0],), b) && if b {
                &&& r == Ok::<char, Fail<String>>(rest[0])
                &&& after == before.at_index(before.index() + 1)
            } else {
                &&& after == before
                &&& r matches Err(Fail::Backtrack(m)) && m@ == "satisfy: unexpected '"@ + seq![rest[0]] + "'"@
            }
        }
    }

    fn parse_next(&mut self, input: &mut StrInput<'a>) -> (r: PResult<char, String>) {
        proof {
            input.lemma_wf();
            input.lemma_advanced_refl();
        }
        let remaining = input.as_str();
        if remaining.is_empty() {
            return Err(Fail::Backtrack("satisfy: unexpected EOF".to_owned()));
        }
        let (c, _) = split_first_char(remaining);
        if (self.0)(c) {
            proof {
                input.lemma_at_index_advanced(input.index() + 1);
            }
            input.advance(len_utf8(c), Ghost(1));
            Ok(c)
        } else {
            Err(Fail::Backtrack(with_char("satisfy: unexpected '", c, "'")))
        }
    }
}

} // verus!
