//! Combinators that report what a parser consumed or where it stopped, and that
//! name a parser in its errors.
use vstd::prelude::*;
use vstd::slice::slice_subrange;
use super::error::ParseError;
use super::result::{ParseResult, passes_failure};
use super::runner::ParserRunner;
use super::transform::last_offset_of;
use crate::message::with_str;

verus! {

/// Gives the elements that a success consumed.
pub struct Collect<P> {
    pub parser: P,
}

impl<'a, I: 'a, P: ParserRunner<'a, I>> ParserRunner<'a, I> for Collect<P> {
    type Output = &'a [I];

    open spec fn inv(&self) -> bool {
        self.parser.inv()
    }

    /// A success of length `n` gives the `n` elements from the offset; a failure is
    /// passed on.
    open spec fn accepts(&self, input: Seq<I>, offset: int, r: ParseResult<&'a [I]>) -> bool {
        exists|r0: ParseResult<P::Output>| #[trigger] self.parser.accepts(input, offset, r0) && match r0 {
            ParseResult::Success { length, .. } => r matches ParseResult::Success { value, length: l }
                && l == length && value@ == input.subrange(offset, offset + length),
            ParseResult::Failure { .. } => passes_failure(r, r0),
        }
    }

    fn run(&self, input: &'a [I], offset: usize) -> (r: ParseResult<&'a [I]>) {
        let len = input.len();
        let r0 = self.parser.run(input, offset);
        let ghost g0 = r0;
        proof {
            assert(self.parser.accepts(input@, offset as int, g0));
        }
        match r0 {
            ParseResult::Success { length, .. } => ParseResult::successful(
                slice_subrange(input, offset, offset + length),
                length,
            ),
            ParseResult::Failure { error, committed_status } => ParseResult::failed(error, committed_status),
        }
    }
}

/// Gives the offset of the last element that a success consumed (`0` when it
/// stopped at the start).
pub struct LastOffset<P> {
    pub parser: P,
}

impl<'a, I: 'a, P: ParserRunner<'a, I>> ParserRunner<'a, I> for LastOffset<P> {
    type Output = usize;

    open spec fn inv(&self) -> bool {
        self.parser.inv()
    }

    /// A success of length `n` gives the offset before `offset + n`, with length
    /// `n`; a failure is passed on.
    open spec fn accepts(&self, input: Seq<I>, offset: int, r: ParseResult<usize>) -> bool {
        exists|r0: ParseResult<P::Output>| #[trigger] self.parser.accepts(input, offset, r0) && match r0 {
            ParseResult::Success { length, .. } => r == (ParseResult::Success {
                value: last_offset_of(offset + length) as usize,
                length,
            }),
            ParseResult::Failure { .. } => passes_failure(r, r0),
        }
    }

    fn run(&self, input: &'a [I], offset: usize) -> (r: ParseResult<usize>) {
        let len = input.len();
        let r0 = self.parser.run(input, offset);
        let ghost g0 = r0;
        proof {
            assert(self.parser.accepts(input@, offset as int, g0));
        }
        match r0 {
            ParseResult::Success { length, .. } => {
                let end = offset + length;
                let last = if end > 0 {
                    end - 1
                } else {
                    0
                };
                ParseResult::successful(last, length)
            },
            ParseResult::Failure { error, committed_status } => ParseResult::failed(error, committed_status),
        }
    }
}

/// Gives the offset where a success stopped.
pub struct NextOffset<P> {
    pub parser: P,
}

impl<'a, I: 'a, P: ParserRunner<'a, I>> ParserRunner<'a, I> for NextOffset<P> {
    type Output = usize;

    open spec fn inv(&self) -> bool {
        self.parser.inv()
    }

    /// A success of length `n` gives `offset + n`, with length `n`; a failure is
    /// passed on.
    open spec fn accepts(&self, input: Seq<I>, offset: int, r: ParseResult<usize>) -> bool {
        exists|r0: ParseResult<P::Output>| #[trigger] self.parser.accepts(input, offset, r0) && match r0 {
            ParseResult::Success { length, .. } => r == (ParseResult::Success {
                value: (offset + length) as usize,
                length,
            }),
            ParseResult::Failure { .. } => passes_failure(r, r0),
        }
    }

    fn run(&self, input: &'a [I], offset: usize) -> (r: ParseResult<usize>) {
        let len = input.len();
        let r0 = self.parser.run(input, offset);
        let ghost g0 = r0;
        proof {
            assert(self.parser.accepts(input@, offset as int, g0));
        }
        match r0 {
            ParseResult::Success { length, .. } => ParseResult::successful(offset + length, length),
            ParseResult::Failure { error, committed_status } => ParseResult::failed(error, committed_status),
        }
    }
}

/// Names the parser in its errors: a failure that is not already a custom error
/// becomes `failed to parse {name}`, wrapping the inner error.
pub struct Named<P> {
    pub parser: P,
    pub name: &'static str,
}

impl<'a, I: 'a, P: ParserRunner<'a, I>> ParserRunner<'a, I> for Named<P> {
    type Output = P::Output;

    open spec fn inv(&self) -> bool {
        self.parser.inv()
    }

    /// A success, or a failure with a custom error, as it is. Another failure
    /// becomes a custom error at the offset before this one, caused by the inner
    /// error, with the message `failed to parse {name}` and the same committed
    /// status.
    open spec fn accepts(&self, input: Seq<I>, offset: int, r: ParseResult<P::Output>) -> bool {
        exists|r0: ParseResult<P::Output>| #[trigger] self.parser.accepts(input, offset, r0) && match r0 {
            ParseResult::Failure { error, committed_status } => if error is Custom {
                r == r0
            } else {
                r matches ParseResult::Failure {
                    error: ParseError::Custom { offset: o, parent: Some(p), message: m },
                    committed_status: c,
                } && o == last_offset_of(offset) && *p == error && m@ == "failed to parse "@ + self.name@
                    && c == committed_status
            },
            _ => r == r0,
        }
    }

    fn run(&self, input: &'a [I], offset: usize) -> (r: ParseResult<P::Output>) {
        let r0 = self.parser.run(input, offset);
        let ghost g0 = r0;
        proof {
            assert(self.parser.accepts(input@, offset as int, g0));
        }
        match r0 {
            ParseResult::Failure { error, committed_status } => {
                if let ParseError::Custom { .. } = error {
                    ParseResult::failed(error, committed_status)
                } else {
                    let at = if offset > 0 {
                        offset - 1
                    } else {
                        0
                    };
                    let msg = with_str("failed to parse ", self.name, "");
                    proof {
                        reveal_strlit("");
                        assert(msg@ =~= "failed to parse "@ + self.name@);
                    }
                    ParseResult::failed(ParseError::of_custom(at, Some(error), msg), committed_status)
                }
            },
            _ => r0,
        }
    }
}

} // verus!
