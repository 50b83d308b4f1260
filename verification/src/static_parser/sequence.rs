//! Combinators that run parsers one after another.
use vstd::prelude::*;
use vstd::slice::slice_subrange;
use super::error::ParseError;
use super::result::{ParseResult, is_incomplete, passes_failure};
use super::runner::ParserRunner;

verus! {

/// How two parsers in sequence end: the first's failure, or the second's from
/// where the first stopped, or both successes, combined by `both`.
pub open spec fn in_sequence<A, B, C>(
    r0: ParseResult<A>,
    r1: ParseResult<B>,
    r: ParseResult<C>,
    both: spec_fn(A, B) -> C,
) -> bool {
    match r0 {
        ParseResult::Success { value: a, length: n1 } => match r1 {
            ParseResult::Success { value: b, length: n2 } => r == (ParseResult::Success {
                value: both(a, b),
                length: (n1 + n2) as usize,
            }),
            ParseResult::Failure { .. } => passes_failure(r, r1),
        },
        ParseResult::Failure { .. } => passes_failure(r, r0),
    }
}

/// Runs `first`, then `second` where it stopped; gives both values.
pub struct AndThen<P, Q> {
    pub first: P,
    pub second: Q,
}

impl<'a, I: 'a, P: ParserRunner<'a, I>, Q: ParserRunner<'a, I>> ParserRunner<'a, I> for AndThen<P, Q> {
    type Output = (P::Output, Q::Output);

    open spec fn inv(&self) -> bool {
        self.first.inv() && self.second.inv()
    }

    /// Both values as a pair with the summed length; a failure of either is passed
    /// on.
    open spec fn accepts(&self, input: Seq<I>, offset: int, r: ParseResult<(P::Output, Q::Output)>) -> bool {
        exists|r0: ParseResult<P::Output>| #[trigger] self.first.accepts(input, offset, r0) && if r0 is Success {
            exists|r1: ParseResult<Q::Output>| #[trigger] self.second.accepts(input, offset + r0->length, r1)
                && in_sequence(r0, r1, r, |a: P::Output, b: Q::Output| (a, b))
        } else {
            passes_failure(r, r0)
        }
    }

    fn run(&self, input: &'a [I], offset: usize) -> (r: ParseResult<(P::Output, Q::Output)>) {
        let len = input.len();
        let r0 = self.first.run(input, offset);
        let ghost g0 = r0;
        proof {
            assert(self.first.accepts(input@, offset as int, g0));
        }
        match r0 {
            ParseResult::Success { value: a, length: n1 } => {
                let r1 = self.second.run(input, offset + n1);
                let ghost g1 = r1;
                proof {
                    assert(self.second.accepts(input@, offset + n1, g1));
                }
                match r1 {
                    ParseResult::Success { value: b, length: n2 } => ParseResult::successful((a, b), n1 + n2),
                    ParseResult::Failure { error, committed_status } => ParseResult::failed(error, committed_status),
                }
            },
            ParseResult::Failure { error, committed_status } => ParseResult::failed(error, committed_status),
        }
    }
}

/// Runs `first`, then `second` where it stopped; keeps the value of `second`.
pub struct SkipLeft<P, Q> {
    pub first: P,
    pub second: Q,
}

impl<'a, I: 'a, P: ParserRunner<'a, I>, Q: ParserRunner<'a, I>> ParserRunner<'a, I> for SkipLeft<P, Q> {
    type Output = Q::Output;

    open spec fn inv(&self) -> bool {
        self.first.inv() && self.second.inv()
    }

    /// The second value with the summed length; a failure of either is passed on.
    open spec fn accepts(&self, input: Seq<I>, offset: int, r: ParseResult<Q::Output>) -> bool {
        exists|r0: ParseResult<P::Output>| #[trigger] self.first.accepts(input, offset, r0) && if r0 is Success {
            exists|r1: ParseResult<Q::Output>| #[trigger] self.second.accepts(input, offset + r0->length, r1)
                && in_sequence(r0, r1, r, |a: P::Output, b: Q::Output| b)
        } else {
            passes_failure(r, r0)
        }
    }

    fn run(&self, input: &'a [I], offset: usize) -> (r: ParseResult<Q::Output>) {
        let len = input.len();
        let r0 = self.first.run(input, offset);
        let ghost g0 = r0;
        proof {
            assert(self.first.accepts(input@, offset as int, g0));
        }
        match r0 {
            ParseResult::Success { length: n1, .. } => {
                let r1 = self.second.run(input, offset + n1);
                let ghost g1 = r1;
                proof {
                    assert(self.second.accepts(input@, offset + n1, g1));
                }
                match r1 {
                    ParseResult::Success { value: b, length: n2 } => ParseResult::successful(b, n1 + n2),
                    ParseResult::Failure { error, committed_status } => ParseResult::failed(error, committed_status),
                }
            },
            ParseResult::Failure { error, committed_status } => ParseResult::failed(error, committed_status),
        }
    }
}

/// Runs `first`, then `second` where it stopped; keeps the value of `first`.
pub struct SkipRight<P, Q> {
    pub first: P,
    pub second: Q,
}

impl<'a, I: 'a, P: ParserRunner<'a, I>, Q: ParserRunner<'a, I>> ParserRunner<'a, I> for SkipRight<P, Q> {
    type Output = P::Output;

    open spec fn inv(&self) -> bool {
        self.first.inv() && self.second.inv()
    }

    /// The first value with the summed length; a failure of either is passed on.
    open spec fn accepts(&self, input: Seq<I>, offset: int, r: ParseResult<P::Output>) -> bool {
        exists|r0: ParseResult<P::Output>| #[trigger] self.first.accepts(input, offset, r0) && if r0 is Success {
            exists|r1: ParseResult<Q::Output>| #[trigger] self.second.accepts(input, offset + r0->length, r1)
                && in_sequence(r0, r1, r, |a: P::Output, b: Q::Output| a)
        } else {
            passes_failure(r, r0)
        }
    }

    fn run(&self, input: &'a [I], offset: usize) -> (r: ParseResult<P::Output>) {
        let len = input.len();
        let r0 = self.first.run(input, offset);
        let ghost g0 = r0;
        proof {
            assert(self.first.accepts(input@, offset as int, g0));
        }
        match r0 {
            ParseResult::Success { value: a, length: n1 } => {
                let r1 = self.second.run(input, offset + n1);
                let ghost g1 = r1;
                proof {
                    assert(self.second.accepts(input@, offset + n1, g1));
                }
                match r1 {
                    ParseResult::Success { length: n2, .. } => ParseResult::successful(a, n1 + n2),
                    ParseResult::Failure { error, committed_status } => ParseResult::failed(error, committed_status),
                }
            },
            ParseResult::Failure { error, committed_status } => ParseResult::failed(error, committed_status),
        }
    }
}

/// Runs `left`, `middle` and `right` one after another, each on the rest of the
/// input as a slice of its own, and gives the elements that `middle` consumed.
/// Fails with `Incomplete` when `left` or `middle` reaches the end of the input.
pub struct SurroundSlice<L, P, R> {
    pub left: L,
    pub middle: P,
    pub right: R,
}

impl<'a, I: 'a, L: ParserRunner<'a, I>, P: ParserRunner<'a, I>, R: ParserRunner<'a, I>> ParserRunner<'a, I> for SurroundSlice<
    L,
    P,
    R,
> {
    type Output = &'a [I];

    open spec fn inv(&self) -> bool {
        self.left.inv() && self.middle.inv() && self.right.inv()
    }

    /// `left` runs on the input from the offset; when it consumes `n1` and the input
    /// goes on, `middle` runs on the input from `offset + n1`; when it consumes `n2`
    /// and the input goes on, `right` runs from there. All three succeeding: the
    /// middle elements, with the summed length. A failure of any is passed on.
    open spec fn accepts(&self, input: Seq<I>, offset: int, r: ParseResult<&'a [I]>) -> bool {
        exists|r0: ParseResult<L::Output>| #[trigger] self.left.accepts(input.subrange(offset, input.len() as int), 0, r0)
            && match r0 {
            ParseResult::Failure { .. } => passes_failure(r, r0),
            ParseResult::Success { length: n1, .. } => {
                let mid = offset + n1;
                if mid >= input.len() {
                    is_incomplete(r)
                } else {
                    exists|r1: ParseResult<P::Output>| #[trigger] self.middle.accepts(input.subrange(mid, input.len() as int), 0, r1)
                        && match r1 {
                        ParseResult::Failure { .. } => passes_failure(r, r1),
                        ParseResult::Success { length: n2, .. } => {
                            let right = mid + n2;
                            if right >= input.len() {
                                is_incomplete(r)
                            } else {
                                exists|r2: ParseResult<R::Output>| #[trigger] self.right.accepts(input.subrange(right, input.len() as int), 0, r2)
                                    && match r2 {
                                    ParseResult::Failure { .. } => passes_failure(r, r2),
                                    ParseResult::Success { length: n3, .. } => r matches ParseResult::Success {
                                        value,
                                        length,
                                    } && value@ == input.subrange(mid, mid + n2) && length == n1 + n2 + n3,
                                }
                            }
                        },
                    }
                }
            },
        }
    }

    fn run(&self, input: &'a [I], offset: usize) -> (r: ParseResult<&'a [I]>) {
        let len = input.len();
        let rest0 = slice_subrange(input, offset, len);
        let r0 = self.left.parse(rest0);
        let ghost g0 = r0;
        proof {
            assert(self.left.accepts(input@.subrange(offset as int, len as int), 0, g0));
        }
        match r0 {
            ParseResult::Failure { error, committed_status } => ParseResult::failed(error, committed_status),
            ParseResult::Success { length: n1, .. } => {
                let mid = offset + n1;
                if mid >= len {
                    return ParseResult::failed_with_uncommitted(ParseError::of_in_complete());
                }
                let rest1 = slice_subrange(input, mid, len);
                let r1 = self.middle.parse(rest1);
                let ghost g1 = r1;
                proof {
                    assert(self.middle.accepts(input@.subrange(mid as int, len as int), 0, g1));
                }
                match r1 {
                    ParseResult::Failure { error, committed_status } => ParseResult::failed(error, committed_status),
                    ParseResult::Success { length: n2, .. } => {
                        let right = mid + n2;
                        if right >= len {
                            return ParseResult::failed_with_uncommitted(ParseError::of_in_complete());
                        }
                        let rest2 = slice_subrange(input, right, len);
                        let r2 = self.right.parse(rest2);
                        let ghost g2 = r2;
                        proof {
                            assert(self.right.accepts(input@.subrange(right as int, len as int), 0, g2));
                        }
                        match r2 {
                            ParseResult::Failure { error, committed_status } => ParseResult::failed(
                                error,
                                committed_status,
                            ),
                            ParseResult::Success { length: n3, .. } => ParseResult::successful(
                                slice_subrange(input, mid, mid + n2),
                                n1 + n2 + n3,
                            ),
                        }
                    },
                }
            },
        }
    }
}


/// Runs `left`, `middle` and `right` one after another, each on the rest of the
/// input as a slice of its own, and gives the value of `middle`.
/// Fails with `Incomplete` when `left` or `middle` reaches the end of the input.
pub struct Surround<L, P, R> {
    pub left: L,
    pub middle: P,
    pub right: R,
}

impl<'a, I: 'a, L: ParserRunner<'a, I>, P: ParserRunner<'a, I>, R: ParserRunner<'a, I>> ParserRunner<'a, I> for Surround<
    L,
    P,
    R,
> {
    type Output = P::Output;

    open spec fn inv(&self) -> bool {
        self.left.inv() && self.middle.inv() && self.right.inv()
    }

    /// `left` runs on the input from the offset; when it consumes `n1` and the input
    /// goes on, `middle` runs on the input from `offset + n1`; when it consumes `n2`
    /// and the input goes on, `right` runs from there. All three succeeding: the
    /// middle value, with the summed length. A failure of any is passed on.
    open spec fn accepts(&self, input: Seq<I>, offset: int, r: ParseResult<P::Output>) -> bool {
        exists|r0: ParseResult<L::Output>| #[trigger] self.left.accepts(input.subrange(offset, input.len() as int), 0, r0)
            && match r0 {
            ParseResult::Failure { .. } => passes_failure(r, r0),
            ParseResult::Success { length: n1, .. } => {
                let mid = offset + n1;
                if mid >= input.len() {
                    is_incomplete(r)
                } else {
                    exists|r1: ParseResult<P::Output>| #[trigger] self.middle.accepts(input.subrange(mid, input.len() as int), 0, r1)
                        && match r1 {
                        ParseResult::Failure { .. } => passes_failure(r, r1),
                        ParseResult::Success { value: v2, length: n2 } => {
                            let right = mid + n2;
                            if right >= input.len() {
                                is_incomplete(r)
                            } else {
                                exists|r2: ParseResult<R::Output>| #[trigger] self.right.accepts(input.subrange(right, input.len() as int), 0, r2)
                                    && match r2 {
                                    ParseResult::Failure { .. } => passes_failure(r, r2),
                                    ParseResult::Success { length: n3, .. } => r == (ParseResult::Success {
                                        value: v2,
                                        length: (n1 + n2 + n3) as usize,
                                    }),
                                }
                            }
                        },
                    }
                }
            },
        }
    }

    fn run(&self, input: &'a [I], offset: usize) -> (r: ParseResult<P::Output>) {
        let len = input.len();
        let rest0 = slice_subrange(input, offset, len);
        let r0 = self.left.parse(rest0);
        let ghost g0 = r0;
        proof {
            assert(self.left.accepts(input@.subrange(offset as int, len as int), 0, g0));
        }
        match r0 {
            ParseResult::Failure { error, committed_status } => ParseResult::failed(error, committed_status),
            ParseResult::Success { length: n1, .. } => {
                let mid = offset + n1;
                if mid >= len {
                    return ParseResult::failed_with_uncommitted(ParseError::of_in_complete());
                }
                let rest1 = slice_subrange(input, mid, len);
                let r1 = self.middle.parse(rest1);
                let ghost g1 = r1;
                proof {
                    assert(self.middle.accepts(input@.subrange(mid as int, len as int), 0, g1));
                }
                match r1 {
                    ParseResult::Failure { error, committed_status } => ParseResult::failed(error, committed_status),
                    ParseResult::Success { value: v2, length: n2 } => {
                        let right = mid + n2;
                        if right >= len {
                            return ParseResult::failed_with_uncommitted(ParseError::of_in_complete());
                        }
                        let rest2 = slice_subrange(input, right, len);
                        let r2 = self.right.parse(rest2);
                        let ghost g2 = r2;
                        proof {
                            assert(self.right.accepts(input@.subrange(right as int, len as int), 0, g2));
                        }
                        match r2 {
                            ParseResult::Failure { error, committed_status } => ParseResult::failed(
                                error,
                                committed_status,
                            ),
                            ParseResult::Success { length: n3, .. } => ParseResult::successful(v2, n1 + n2 + n3),
                        }
                    },
                }
            },
        }
    }
}

} // verus!
