//! A parser for the end of the input.
use vstd::prelude::*;
use crate::error::{Expected, ParseError};
use crate::fail::{Fail, PResult};
use crate::input::Input;
use crate::parser::Parser;
use crate::str_input::{StrInput, byte_len, char_width, len_utf8, split_at_boundary, split_first_char, str_byte_len, str_starts_with, lemma_byte_len_take_step, lemma_byte_len_take_mono};

verus! {

/// Succeeds only at the end of the input.
pub struct Eof;

/// A parser for the end of the input.
pub fn eof() -> (p: Eof) {
    Eof
}

impl<'a> Parser<StrInput<'a>> for Eof {
    type Output = ();
    type Error = ParseError;

    open spec fn inv(&self) -> bool {
        true
    }

    /// Consumes nothing; succeeds iff nothing remains.
    open spec fn spec_parse(&self, before: StrInput<'a>, after: StrInput<'a>, r: PResult<(), ParseError>) -> bool {
        &&& after == before
        &&& if before.rest().len() == 0 {
            r == Ok::<(), Fail<ParseError>>(())
        } else {
            r == Err::<(), Fail<ParseError>>(
                Fail::Backtrack(ParseError { position: before.pos() as usize, expected: Expected::Eof }),
            )
        }
    }

    fn parse_next(&mut self, input: &mut StrInput<'a>) -> (r: PResult<(), ParseError>) {
        proof {
            input.lemma_advanced_refl();
        }
        if input.is_eof() {
            Ok(())
        } else {
            Err(Fail::Backtrack(ParseError::expected_eof(input.offset())))
        }
    }
}

} // verus!
