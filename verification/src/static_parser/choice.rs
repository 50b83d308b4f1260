//! Combinators that choose between outcomes: alternatives, backtracking,
//! optional and negated parsers, and look-ahead.
use vstd::prelude::*;
use super::error::{CommittedStatus, ParseError, error_text};
use super::result::{ParseResult, is_custom, is_mismatch, spec_with_uncommitted};
use super::runner::ParserRunner;
use super::transform::last_offset_of;
use crate::message::with_str;

verus! {

/// Runs `first`; after an uncommitted failure runs `second` from the same offset.
pub struct Or<P, Q> {
    pub first: P,
    pub second: Q,
}

impl<'a, I: 'a, P: ParserRunner<'a, I>, Q: ParserRunner<'a, I, Output = P::Output>> ParserRunner<'a, I> for Or<P, Q> {
    type Output = P::Output;

    open spec fn inv(&self) -> bool {
        self.first.inv() && self.second.inv()
    }

    /// The result of `first`, unless it is an uncommitted failure: then the result
    /// of `second` from the same offset.
    open spec fn accepts(&self, input: Seq<I>, offset: int, r: ParseResult<P::Output>) -> bool {
        exists|r0: ParseResult<P::Output>| #[trigger] self.first.accepts(input, offset, r0) && if r0 matches ParseResult::Failure {
            committed_status: CommittedStatus::Uncommitted,
            ..
        } {
            self.second.accepts(input, offset, r)
        } else {
            r == r0
        }
    }

    fn run(&self, input: &'a [I], offset: usize) -> (r: ParseResult<P::Output>) {
        let r0 = self.first.run(input, offset);
        let ghost g0 = r0;
        proof {
            assert(self.first.accepts(input@, offset as int, g0));
        }
        match r0.committed_status() {
            Some(CommittedStatus::Uncommitted) => self.second.run(input, offset),
            _ => r0,
        }
    }
}

/// The message of a failure of both alternatives.
pub open spec fn either_message(lhs: ParseError, rhs: ParseError) -> Seq<char> {
    error_text(lhs) + " or "@ + error_text(rhs)
}

/// Runs `first`; after an uncommitted failure runs `second` from the same offset,
/// and when that fails too, reports both errors.
pub struct Either<P, Q> {
    pub first: P,
    pub second: Q,
}

impl<'a, I: 'a, P: ParserRunner<'a, I>, Q: ParserRunner<'a, I, Output = P::Output>> ParserRunner<'a, I> for Either<
    P,
    Q,
> {
    type Output = P::Output;

    open spec fn inv(&self) -> bool {
        self.first.inv() && self.second.inv()
    }

    /// A success or committed failure of `first` as it is. After an uncommitted
    /// failure of `first`: a success of `second`, or a custom failure at the offset
    /// naming both errors, with the committed status of the second.
    open spec fn accepts(&self, input: Seq<I>, offset: int, r: ParseResult<P::Output>) -> bool {
        exists|r0: ParseResult<P::Output>| #[trigger] self.first.accepts(input, offset, r0) && match r0 {
            ParseResult::Failure { error: e0, committed_status: CommittedStatus::Uncommitted } => exists|
                r1: ParseResult<P::Output>,
            | #[trigger] self.second.accepts(input, offset, r1) && match r1 {
                ParseResult::Failure { error: e1, committed_status: c1 } => r matches ParseResult::Failure {
                    error: ParseError::Custom { offset: o, parent: None, message: m },
                    committed_status: c,
                } && o == offset && m@ == either_message(e0, e1) && c == c1,
                _ => r == r1,
            },
            _ => r == r0,
        }
    }

    fn run(&self, input: &'a [I], offset: usize) -> (r: ParseResult<P::Output>) {
        let r0 = self.first.run(input, offset);
        let ghost g0 = r0;
        proof {
            assert(self.first.accepts(input@, offset as int, g0));
        }
        match r0 {
            ParseResult::Failure { error: e0, committed_status: CommittedStatus::Uncommitted } => {
                let r1 = self.second.run(input, offset);
                let ghost g1 = r1;
                proof {
                    assert(self.second.accepts(input@, offset as int, g1));
                }
                match r1 {
                    ParseResult::Failure { error: e1, committed_status: c1 } => {
                        let t0 = e0.describe();
                        let t1 = e1.describe();
                        let msg = with_str(t0.as_str(), " or ", t1.as_str());
                        ParseResult::failed(ParseError::of_custom(offset, None, msg), c1)
                    },
                    _ => r1,
                }
            },
            _ => r0,
        }
    }
}

/// Makes a failure uncommitted, so that alternatives are tried after it.
pub struct Attempt<P> {
    pub parser: P,
}

impl<'a, I: 'a, P: ParserRunner<'a, I>> ParserRunner<'a, I> for Attempt<P> {
    type Output = P::Output;

    open spec fn inv(&self) -> bool {
        self.parser.inv()
    }

    /// The parser's result with a failure made uncommitted.
    open spec fn accepts(&self, input: Seq<I>, offset: int, r: ParseResult<P::Output>) -> bool {
        exists|r0: ParseResult<P::Output>| #[trigger] self.parser.accepts(input, offset, r0) && r
            == spec_with_uncommitted(r0)
    }

    fn run(&self, input: &'a [I], offset: usize) -> (r: ParseResult<P::Output>) {
        let r0 = self.parser.run(input, offset);
        let ghost g0 = r0;
        proof {
            assert(self.parser.accepts(input@, offset as int, g0));
        }
        r0.with_uncommitted()
    }
}

/// `Some` of a success, `None` (consuming nothing) after any failure.
pub struct Opt<P> {
    pub parser: P,
}

impl<'a, I: 'a, P: ParserRunner<'a, I>> ParserRunner<'a, I> for Opt<P> {
    type Output = Option<P::Output>;

    open spec fn inv(&self) -> bool {
        self.parser.inv()
    }

    /// A success as `Some` with its length; any failure as `None` with length zero.
    open spec fn accepts(&self, input: Seq<I>, offset: int, r: ParseResult<Option<P::Output>>) -> bool {
        exists|r0: ParseResult<P::Output>| #[trigger] self.parser.accepts(input, offset, r0) && match r0 {
            ParseResult::Success { value, length } => r == (ParseResult::Success { value: Some(value), length }),
            ParseResult::Failure { .. } => r == (ParseResult::Success { value: None::<P::Output>, length: 0 }),
        }
    }

    fn run(&self, input: &'a [I], offset: usize) -> (r: ParseResult<Option<P::Output>>) {
        let r0 = self.parser.run(input, offset);
        let ghost g0 = r0;
        proof {
            assert(self.parser.accepts(input@, offset as int, g0));
        }
        match r0 {
            ParseResult::Success { value, length } => ParseResult::successful(Some(value), length),
            ParseResult::Failure { .. } => ParseResult::successful(None, 0),
        }
    }
}

/// Whether the parser succeeds, consuming nothing.
pub struct Exists<P> {
    pub parser: P,
}

impl<'a, I: 'a, P: ParserRunner<'a, I>> ParserRunner<'a, I> for Exists<P> {
    type Output = bool;

    open spec fn inv(&self) -> bool {
        self.parser.inv()
    }

    /// Always a success of length zero: `true` exactly when the parser succeeds.
    open spec fn accepts(&self, input: Seq<I>, offset: int, r: ParseResult<bool>) -> bool {
        exists|r0: ParseResult<P::Output>| #[trigger] self.parser.accepts(input, offset, r0) && r == (
        ParseResult::Success { value: r0 is Success, length: 0 })
    }

    fn run(&self, input: &'a [I], offset: usize) -> (r: ParseResult<bool>) {
        let r0 = self.parser.run(input, offset);
        let ghost g0 = r0;
        proof {
            assert(self.parser.accepts(input@, offset as int, g0));
        }
        ParseResult::successful(r0.is_success(), 0)
    }
}

/// Succeeds, consuming nothing, exactly when the parser fails.
pub struct NotPred<P> {
    pub parser: P,
}

impl<'a, I: 'a, P: ParserRunner<'a, I>> ParserRunner<'a, I> for NotPred<P> {
    type Output = ();

    open spec fn inv(&self) -> bool {
        self.parser.inv()
    }

    /// After any failure of the parser: `()` with length zero. After a success: an
    /// uncommitted mismatch at the offset before this one.
    open spec fn accepts(&self, input: Seq<I>, offset: int, r: ParseResult<()>) -> bool {
        exists|r0: ParseResult<P::Output>| #[trigger] self.parser.accepts(input, offset, r0) && if r0 is Success {
            is_mismatch(r, last_offset_of(offset), 0, "not predicate failed"@)
        } else {
            r == (ParseResult::Success { value: (), length: 0 })
        }
    }

    fn run(&self, input: &'a [I], offset: usize) -> (r: ParseResult<()>) {
        let r0 = self.parser.run(input, offset);
        let ghost g0 = r0;
        proof {
            assert(self.parser.accepts(input@, offset as int, g0));
        }
        if r0.is_success() {
            let at = if offset > 0 {
                offset - 1
            } else {
                0
            };
            ParseResult::failed_with_uncommitted(ParseError::of_mismatch(at, 0, "not predicate failed".to_owned()))
        } else {
            ParseResult::successful((), 0)
        }
    }
}

/// Negation that respects commitment: succeeds, consuming nothing, after an
/// uncommitted failure; fails after a success or a committed failure.
pub struct NotCommitted<P> {
    pub parser: P,
}

impl<'a, I: 'a, P: ParserRunner<'a, I>> ParserRunner<'a, I> for NotCommitted<P> {
    type Output = ();

    open spec fn inv(&self) -> bool {
        self.parser.inv()
    }

    /// After a success: an uncommitted custom failure at the offset. After a
    /// committed failure: a committed custom failure at the offset. After an
    /// uncommitted failure: `()` with length zero.
    open spec fn accepts(&self, input: Seq<I>, offset: int, r: ParseResult<()>) -> bool {
        exists|r0: ParseResult<P::Output>| #[trigger] self.parser.accepts(input, offset, r0) && match r0 {
            ParseResult::Success { .. } => is_custom(r, offset, "not: parser succeeded"@),
            ParseResult::Failure { committed_status: CommittedStatus::Committed, .. } => r matches ParseResult::Failure {
                error: ParseError::Custom { offset: o, parent: None, message: m },
                committed_status: CommittedStatus::Committed,
            } && o == offset && m@ == "not: parser failed with committed status"@,
            ParseResult::Failure { .. } => r == (ParseResult::Success { value: (), length: 0 }),
        }
    }

    fn run(&self, input: &'a [I], offset: usize) -> (r: ParseResult<()>) {
        let r0 = self.parser.run(input, offset);
        let ghost g0 = r0;
        proof {
            assert(self.parser.accepts(input@, offset as int, g0));
        }
        match r0 {
            ParseResult::Success { .. } => ParseResult::failed(
                ParseError::of_custom(offset, None, "not: parser succeeded".to_owned()),
                CommittedStatus::Uncommitted,
            ),
            ParseResult::Failure { committed_status: CommittedStatus::Committed, .. } => ParseResult::failed(
                ParseError::of_custom(offset, None, "not: parser failed with committed status".to_owned()),
                CommittedStatus::Committed,
            ),
            ParseResult::Failure { .. } => ParseResult::successful((), 0),
        }
    }
}

/// Runs the parser without consuming: a success keeps its value with length zero.
pub struct Peek<P> {
    pub parser: P,
}

impl<'a, I: 'a, P: ParserRunner<'a, I>> ParserRunner<'a, I> for Peek<P> {
    type Output = P::Output;

    open spec fn inv(&self) -> bool {
        self.parser.inv()
    }

    /// A success with its value and length zero; a failure as it is.
    open spec fn accepts(&self, input: Seq<I>, offset: int, r: ParseResult<P::Output>) -> bool {
        exists|r0: ParseResult<P::Output>| #[trigger] self.parser.accepts(input, offset, r0) && match r0 {
            ParseResult::Success { value, .. } => r == (ParseResult::Success { value, length: 0 }),
            ParseResult::Failure { .. } => r == r0,
        }
    }

    fn run(&self, input: &'a [I], offset: usize) -> (r: ParseResult<P::Output>) {
        let r0 = self.parser.run(input, offset);
        let ghost g0 = r0;
        proof {
            assert(self.parser.accepts(input@, offset as int, g0));
        }
        match r0 {
            ParseResult::Success { value, .. } => ParseResult::successful(value, 0),
            ParseResult::Failure { .. } => r0,
        }
    }
}

} // verus!
