//! Parsers that consume nothing: fixed successes and failures, and lazily built
//! parsers.
use vstd::prelude::*;
use super::error::{CommittedStatus, ParseError};
use super::result::ParseResult;
use super::runner::ParserRunner;

verus! {

/// Succeeds with `()`, consuming nothing.
pub struct Unit;

impl<'a, I: 'a> ParserRunner<'a, I> for Unit {
    type Output = ();

    open spec fn inv(&self) -> bool {
        true
    }

    /// Always `()` with length zero.
    open spec fn accepts(&self, input: Seq<I>, offset: int, r: ParseResult<()>) -> bool {
        r == (ParseResult::Success { value: (), length: 0 })
    }

    fn run(&self, input: &'a [I], offset: usize) -> (r: ParseResult<()>) {
        ParseResult::successful((), 0)
    }
}

/// Succeeds with a clone of `value`, consuming nothing.
pub struct Successful<A> {
    pub value: A,
}

impl<'a, I: 'a, A: Clone> ParserRunner<'a, I> for Successful<A> {
    type Output = A;

    open spec fn inv(&self) -> bool {
        true
    }

    /// Always a clone of `value` with length zero.
    open spec fn accepts(&self, input: Seq<I>, offset: int, r: ParseResult<A>) -> bool {
        r matches ParseResult::Success { value, length } && length == 0 && cloned(self.value, value)
    }

    fn run(&self, input: &'a [I], offset: usize) -> (r: ParseResult<A>) {
        ParseResult::successful(self.value.clone(), 0)
    }
}

/// Succeeds with what the closure returns, consuming nothing.
pub struct SuccessfulLazy<F> {
    pub f: F,
}

impl<'a, I: 'a, A, F: Fn() -> A> ParserRunner<'a, I> for SuccessfulLazy<F> {
    type Output = A;

    open spec fn inv(&self) -> bool {
        call_requires(self.f, ())
    }

    /// Always the closure's value with length zero; the closure runs on each parse.
    open spec fn accepts(&self, input: Seq<I>, offset: int, r: ParseResult<A>) -> bool {
        r matches ParseResult::Success { value, length } && length == 0 && call_ensures(self.f, (), value)
    }

    fn run(&self, input: &'a [I], offset: usize) -> (r: ParseResult<A>) {
        ParseResult::successful((self.f)(), 0)
    }
}

/// Fails with `error` and the committed status `committed`, consuming nothing.
pub struct Failed<I, A> {
    pub error: ParseError,
    pub committed: CommittedStatus,
    pub output: core::marker::PhantomData<(I, A)>,
}

impl<'a, I: 'a, A> ParserRunner<'a, I> for Failed<I, A> {
    type Output = A;

    open spec fn inv(&self) -> bool {
        true
    }

    /// Always the failure `error` with the status `committed`.
    open spec fn accepts(&self, input: Seq<I>, offset: int, r: ParseResult<A>) -> bool {
        r == (ParseResult::<A>::Failure { error: self.error, committed_status: self.committed })
    }

    fn run(&self, input: &'a [I], offset: usize) -> (r: ParseResult<A>) {
        ParseResult::failed(self.error.duplicate(), self.committed)
    }
}

/// Fails with the error and committed status that the closure returns.
pub struct FailedLazy<F, I, A> {
    pub f: F,
    pub output: core::marker::PhantomData<(I, A)>,
}

impl<'a, I: 'a, A, F: Fn() -> (ParseError, CommittedStatus)> ParserRunner<'a, I> for FailedLazy<F, I, A> {
    type Output = A;

    open spec fn inv(&self) -> bool {
        call_requires(self.f, ())
    }

    /// Always the failure the closure returns; the closure runs on each parse.
    open spec fn accepts(&self, input: Seq<I>, offset: int, r: ParseResult<A>) -> bool {
        r matches ParseResult::Failure { error, committed_status } && call_ensures(
            self.f,
            (),
            (error, committed_status),
        )
    }

    fn run(&self, input: &'a [I], offset: usize) -> (r: ParseResult<A>) {
        let (error, committed) = (self.f)();
        ParseResult::failed(error, committed)
    }
}

/// Builds a parser with the closure on each parse and runs it.
pub struct Lazy<F> {
    pub f: F,
}

/// The closure may be called, and every parser it builds may run.
pub open spec fn lazy_inv<'a, I: 'a, P: ParserRunner<'a, I>, F: Fn() -> P>(f: F) -> bool {
    &&& call_requires(f, ())
    &&& forall|p: P| #[trigger] call_ensures(f, (), p) ==> p.inv()
}

impl<'a, I: 'a, P: ParserRunner<'a, I>, F: Fn() -> P> ParserRunner<'a, I> for Lazy<F> {
    type Output = P::Output;

    open spec fn inv(&self) -> bool {
        lazy_inv::<'a, I, P, F>(self.f)
    }

    /// A result of some parser that the closure builds.
    open spec fn accepts(&self, input: Seq<I>, offset: int, r: ParseResult<P::Output>) -> bool {
        exists|p: P| #[trigger] call_ensures(self.f, (), p) && p.accepts(input, offset, r)
    }

    fn run(&self, input: &'a [I], offset: usize) -> (r: ParseResult<P::Output>) {
        let p = (self.f)();
        p.run(input, offset)
    }
}

} // verus!
