//! Structured parse errors: a byte position and what was expected there.
use vstd::prelude::*;

verus! {

/// What a parser expected to find.
#[derive(Debug, Clone, Copy, PartialEq, Eq)]
pub enum Expected {
    Char(char),
    Eof,
    Description(&'static str),
}

/// A parse error at a byte position of the input.
#[derive(Debug, Clone, Copy, PartialEq, Eq)]
pub struct ParseError {
    pub position: usize,
    pub expected: Expected,
}

impl ParseError {
    /// The character `c` was expected at `position`.
    pub fn expected_char(position: usize, c: char) -> (e: ParseError)
        ensures
            e == (ParseError { position, expected: Expected::Char(c) }),
    {
        ParseError { position, expected: Expected::Char(c) }
    }

    /// The end of the input was expected at `position`.
    pub fn expected_eof(position: usize) -> (e: ParseError)
        ensures
            e == (ParseError { position, expected: Expected::Eof }),
    {
        ParseError { position, expected: Expected::Eof }
    }

    /// Something described by `description` was expected at `position`.
    pub fn expected_description(position: usize, description: &'static str) -> (e: ParseError)
        ensures
            e == (ParseError { position, expected: Expected::Description(description) }),
    {
        ParseError { position, expected: Expected::Description(description) }
    }
}

} // verus!
