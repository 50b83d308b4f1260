//! A parser for one given character.
use vstd::prelude::*;
use crate::error::{Expected, ParseError};
use crate::fail::{Fail, PResult};
use crate::input::Input;
use crate::parser::Parser;
use crate::str_input::{StrInput, byte_len, char_width, len_utf8, split_at_boundary, split_first_char, str_byte_len, str_starts_with, lemma_byte_len_take_step, lemma_byte_len_take_mono};

verus! {

/// Matches the character it holds.
pub struct Char(pub char);

/// A parser for the character `c`.
pub fn char(c: char) -> (p: Char)
    ensures
        p.0 == c,
{
    Char(c)
}

impl<'a> Parser<StrInput<'a>> for Char {
    type Output = char;
    type Error = ParseError;

    open spec fn inv(&self) -> bool {
        true
    }

    /// On a match the character is consumed and returned; otherwise nothing is
    /// consumed and the failure backtracks with the expected character.
    open spec fn spec_parse(&self, before: StrInput<'a>, after: StrInput<'a>, r: PResult<char, ParseError>) -> bool {
        let rest = before.rest();
        if rest.len() > 0 && rest[0] == self.0 {
            &&& r == Ok::<char, Fail<ParseError>>(self.0)
            &&& after == before.at_index(before.index() + 1)
        } else {
            &&& r == Err::<char, Fail<ParseError>>(
                Fail::Backtrack(ParseError { position: before.pos() as usize, expected: Expected::Char(self.0) }),
            )
            &&& after == before
        }
    }

    fn parse_next(&mut self, input: &mut StrInput<'a>) -> (r: PResult<char, ParseError>) {
        proof {
            input.lemma_wf();
            input.lemma_advanced_refl();
        }
        let pos = input.offset();
        let remaining = input.remaining();
        if !remaining.is_empty() {
            let (c, _) = split_first_char(remaining);
            if c == self.0 {
                proof {
                    input.lemma_at_index_advanced(input.index() + 1);
                }
                input.advance(len_utf8(c), Ghost(1));
                return Ok(c);
            }
        }
        Err(Fail::Backtrack(ParseError::expected_char(pos, self.0)))
    }
}

} // verus!
