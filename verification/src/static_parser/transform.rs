//! Combinators that transform the value of one parser: `map`, `flat_map`,
//! `map_res`, `with_filter`, `discard`.
use vstd::prelude::*;
use super::error::{CommittedStatus, ParseError};
use super::result::{ParseResult, is_custom, passes_failure};
use super::runner::ParserRunner;

verus! {

/// The offset before the last consumed element: `offset - 1`, or `0` at the start.
pub open spec fn last_offset_of(offset: int) -> int {
    if offset > 0 {
        offset - 1
    } else {
        0
    }
}

/// Maps the value of a success with `f`.
pub struct MapValue<P, F> {
    pub parser: P,
    pub f: F,
}

impl<'a, I: 'a, B, P: ParserRunner<'a, I>, F: Fn(P::Output) -> B> ParserRunner<'a, I> for MapValue<P, F> {
    type Output = B;

    open spec fn inv(&self) -> bool {
        &&& self.parser.inv()
        &&& forall|v: P::Output| call_requires(self.f, (v,))
    }

    /// A success of the parser with its value mapped by `f`, or its failure.
    open spec fn accepts(&self, input: Seq<I>, offset: int, r: ParseResult<B>) -> bool {
        exists|r0: ParseResult<P::Output>| #[trigger] self.parser.accepts(input, offset, r0) && match r0 {
            ParseResult::Success { value, length } => r matches ParseResult::Success { value: v, length: l }
                && l == length && call_ensures(self.f, (value,), v),
            ParseResult::Failure { .. } => passes_failure(r, r0),
        }
    }

    fn run(&self, input: &'a [I], offset: usize) -> (r: ParseResult<B>) {
        let len = input.len();
        let r0 = self.parser.run(input, offset);
        let ghost g = r0;
        proof {
            assert(self.parser.accepts(input@, offset as int, g));
        }
        match r0 {
            ParseResult::Success { value, length } => ParseResult::successful((self.f)(value), length),
            ParseResult::Failure { error, committed_status } => ParseResult::failed(error, committed_status),
        }
    }
}

/// The parsers that `f` builds may run.
pub open spec fn builds_runnable<'a, I: 'a, A, Q: ParserRunner<'a, I>, F: Fn(A) -> Q>(f: F) -> bool {
    &&& forall|v: A| call_requires(f, (v,))
    &&& forall|v: A, q: Q| #[trigger] call_ensures(f, (v,), q) ==> q.inv()
}

/// Runs the parser that `f` builds from the value of a success, after it.
pub struct FlatMap<P, F> {
    pub parser: P,
    pub f: F,
}

impl<'a, I: 'a, P: ParserRunner<'a, I>, Q: ParserRunner<'a, I>, F: Fn(P::Output) -> Q> ParserRunner<'a, I> for FlatMap<
    P,
    F,
> {
    type Output = Q::Output;

    open spec fn inv(&self) -> bool {
        &&& self.parser.inv()
        &&& builds_runnable::<'a, I, P::Output, Q, F>(self.f)
    }

    /// After a success consuming `n1` elements, a result of the built parser from
    /// there, a success counting both lengths; a failure of either is passed on.
    open spec fn accepts(&self, input: Seq<I>, offset: int, r: ParseResult<Q::Output>) -> bool {
        exists|r0: ParseResult<P::Output>| #[trigger] self.parser.accepts(input, offset, r0) && match r0 {
            ParseResult::Success { value, length } => exists|q: Q, r1: ParseResult<Q::Output>|
                #[trigger] call_ensures(self.f, (value,), q) && #[trigger] q.accepts(input, offset + length, r1)
                    && match r1 {
                    ParseResult::Success { value: v, length: n } => r == (ParseResult::Success {
                        value: v,
                        length: (length + n) as usize,
                    }),
                    ParseResult::Failure { .. } => passes_failure(r, r1),
                },
            ParseResult::Failure { .. } => passes_failure(r, r0),
        }
    }

    fn run(&self, input: &'a [I], offset: usize) -> (r: ParseResult<Q::Output>) {
        let len = input.len();
        let r0 = self.parser.run(input, offset);
        let ghost g = r0;
        proof {
            assert(self.parser.accepts(input@, offset as int, g));
        }
        match r0 {
            ParseResult::Success { value, length } => {
                let q = (self.f)(value);
                let r1 = q.run(input, offset + length);
                let ghost g1 = r1;
                proof {
                    assert(q.accepts(input@, offset + length, g1));
                }
                match r1 {
                    ParseResult::Success { value: v, length: n } => ParseResult::successful(v, length + n),
                    ParseResult::Failure { error, committed_status } => ParseResult::failed(error, committed_status),
                }
            },
            ParseResult::Failure { error, committed_status } => ParseResult::failed(error, committed_status),
        }
    }
}

/// The message of a conversion failure begins with this text.
pub open spec fn conversion_prefix() -> Seq<char> {
    "Conversion error: "@
}

/// `format!("Conversion error: {:?}", err)`: the message starts with
/// `Conversion error: `; the rest is the error's `Debug` text.
#[verifier::external_body]
fn conversion_message<E: core::fmt::Debug>(err: &E) -> (s: String)
    ensures
        s@.len() >= conversion_prefix().len(),
        s@.subrange(0, conversion_prefix().len() as int) == conversion_prefix(),
{
    format!("Conversion error: {:?}", err)
}

/// Converts the value of a success with `f`; an `Err` fails.
pub struct MapRes<P, F> {
    pub parser: P,
    pub f: F,
}

impl<
    'a,
    I: 'a,
    B,
    E: core::fmt::Debug,
    P: ParserRunner<'a, I>,
    F: Fn(P::Output) -> Result<B, E>,
> ParserRunner<'a, I> for MapRes<P, F> {
    type Output = B;

    open spec fn inv(&self) -> bool {
        &&& self.parser.inv()
        &&& forall|v: P::Output| call_requires(self.f, (v,))
    }

    /// A success whose value `f` converts: the converted value with the same
    /// length. When `f` gives an error: an uncommitted `Conversion` failure at the
    /// offset before the parse's last position, of length zero, whose message
    /// starts with `Conversion error: `. A failure of the parser is passed on.
    open spec fn accepts(&self, input: Seq<I>, offset: int, r: ParseResult<B>) -> bool {
        exists|r0: ParseResult<P::Output>| #[trigger] self.parser.accepts(input, offset, r0) && match r0 {
            ParseResult::Success { value, length } => exists|c: Result<B, E>| #[trigger] call_ensures(self.f, (value,), c)
                && match c {
                Ok(b) => r == (ParseResult::Success { value: b, length }),
                Err(_) => r matches ParseResult::Failure {
                    error: ParseError::Conversion { offset: o, length: l, message: m },
                    committed_status: s,
                } && o == last_offset_of(offset) && l == 0 && s == CommittedStatus::Uncommitted
                    && m@.len() >= conversion_prefix().len()
                    && m@.subrange(0, conversion_prefix().len() as int) == conversion_prefix(),
            },
            ParseResult::Failure { .. } => passes_failure(r, r0),
        }
    }

    fn run(&self, input: &'a [I], offset: usize) -> (r: ParseResult<B>) {
        let len = input.len();
        let r0 = self.parser.run(input, offset);
        let ghost g = r0;
        proof {
            assert(self.parser.accepts(input@, offset as int, g));
        }
        match r0 {
            ParseResult::Success { value, length } => {
                let c = (self.f)(value);
                let ghost gc = c;
                proof {
                    assert(call_ensures(self.f, (g->value,), gc));
                }
                match c {
                    Ok(b) => ParseResult::successful(b, length),
                    Err(e) => {
                        let at = if offset > 0 {
                            offset - 1
                        } else {
                            0
                        };
                        ParseResult::failed_with_uncommitted(ParseError::of_conversion(at, 0, conversion_message(&e)))
                    },
                }
            },
            ParseResult::Failure { error, committed_status } => ParseResult::failed(error, committed_status),
        }
    }
}

/// Keeps a success only when `f` accepts its value.
pub struct WithFilter<P, F> {
    pub parser: P,
    pub f: F,
}

impl<'a, I: 'a, P: ParserRunner<'a, I>, F: Fn(&P::Output) -> bool> ParserRunner<'a, I> for WithFilter<P, F> {
    type Output = P::Output;

    open spec fn inv(&self) -> bool {
        &&& self.parser.inv()
        &&& forall|v: P::Output| call_requires(self.f, (&v,))
    }

    /// A success that `f` accepts, unchanged; one it rejects becomes an uncommitted
    /// custom failure after the consumed elements. A failure is passed on.
    open spec fn accepts(&self, input: Seq<I>, offset: int, r: ParseResult<P::Output>) -> bool {
        exists|r0: ParseResult<P::Output>| #[trigger] self.parser.accepts(input, offset, r0) && match r0 {
            ParseResult::Success { value, length } => exists|b: bool| #[trigger] call_ensures(self.f, (&value,), b)
                && if b {
                r == r0
            } else {
                is_custom(r, offset + length, "filter: predicate returned false"@)
            },
            ParseResult::Failure { .. } => r == r0,
        }
    }

    fn run(&self, input: &'a [I], offset: usize) -> (r: ParseResult<P::Output>) {
        let len = input.len();
        let r0 = self.parser.run(input, offset);
        let ghost g = r0;
        proof {
            assert(self.parser.accepts(input@, offset as int, g));
        }
        match r0 {
            ParseResult::Success { value, length } => {
                let b = (self.f)(&value);
                proof {
                    assert(call_ensures(self.f, (&g->value,), b));
                }
                if b {
                    ParseResult::successful(value, length)
                } else {
                    ParseResult::failed(
                        ParseError::of_custom(offset + length, None, "filter: predicate returned false".to_owned()),
                        CommittedStatus::Uncommitted,
                    )
                }
            },
            ParseResult::Failure { error, committed_status } => ParseResult::failed(error, committed_status),
        }
    }
}

/// Keeps a success whose value passes `f`; a rejected value fails with the
/// message `Filter predicate failed`, at offset `0`.
pub struct Filtered<P, F> {
    pub parser: P,
    pub f: F,
}

impl<'a, I: 'a, P: ParserRunner<'a, I>, F: Fn(&P::Output) -> bool> ParserRunner<'a, I> for Filtered<P, F> {
    type Output = P::Output;

    open spec fn inv(&self) -> bool {
        &&& self.parser.inv()
        &&& forall|v: P::Output| call_requires(self.f, (&v,))
    }

    /// A success that `f` accepts, unchanged; one it rejects becomes an uncommitted
    /// custom failure at offset `0`. A failure is passed on.
    open spec fn accepts(&self, input: Seq<I>, offset: int, r: ParseResult<P::Output>) -> bool {
        exists|r0: ParseResult<P::Output>| #[trigger] self.parser.accepts(input, offset, r0) && match r0 {
            ParseResult::Success { value, length } => exists|b: bool| #[trigger] call_ensures(self.f, (&value,), b)
                && if b {
                r == r0
            } else {
                is_custom(r, 0, "Filter predicate failed"@)
            },
            ParseResult::Failure { .. } => r == r0,
        }
    }

    fn run(&self, input: &'a [I], offset: usize) -> (r: ParseResult<P::Output>) {
        let r0 = self.parser.run(input, offset);
        let ghost g = r0;
        proof {
            assert(self.parser.accepts(input@, offset as int, g));
        }
        match r0 {
            ParseResult::Success { value, length } => {
                let b = (self.f)(&value);
                proof {
                    assert(call_ensures(self.f, (&g->value,), b));
                }
                if b {
                    ParseResult::successful(value, length)
                } else {
                    ParseResult::failed(
                        ParseError::of_custom(0, None, "Filter predicate failed".to_owned()),
                        CommittedStatus::Uncommitted,
                    )
                }
            },
            ParseResult::Failure { error, committed_status } => ParseResult::failed(error, committed_status),
        }
    }
}

/// Replaces the value of a success with `()`.
pub struct Discard<P> {
    pub parser: P,
}

impl<'a, I: 'a, P: ParserRunner<'a, I>> ParserRunner<'a, I> for Discard<P> {
    type Output = ();

    open spec fn inv(&self) -> bool {
        self.parser.inv()
    }

    /// A success becomes `()` with the same length; a failure is passed on.
    open spec fn accepts(&self, input: Seq<I>, offset: int, r: ParseResult<()>) -> bool {
        exists|r0: ParseResult<P::Output>| #[trigger] self.parser.accepts(input, offset, r0) && match r0 {
            ParseResult::Success { length, .. } => r == (ParseResult::Success { value: (), length }),
            ParseResult::Failure { .. } => passes_failure(r, r0),
        }
    }

    fn run(&self, input: &'a [I], offset: usize) -> (r: ParseResult<()>) {
        let len = input.len();
        let r0 = self.parser.run(input, offset);
        let ghost g = r0;
        proof {
            assert(self.parser.accepts(input@, offset as int, g));
        }
        match r0 {
            ParseResult::Success { length, .. } => ParseResult::successful((), length),
            ParseResult::Failure { error, committed_status } => ParseResult::failed(error, committed_status),
        }
    }
}

} // verus!
