//! The `Parser` trait: one parse step on a mutable input.
use vstd::prelude::*;
use crate::fail::PResult;
use crate::input::Input;

verus! {

/// A parser reads from `input`, moving it forward, and returns a value or a `Fail`.
///
/// `spec_parse(before, after, r)` says which outcomes are possible: `r` together
/// with the input state `after` when started from `before`.
pub trait Parser<I: Input>: Sized {
    type Output;
    type Error;

    /// Conditions under which the parser may be run (for example, that its closures
    /// may be called on any argument).
    spec fn inv(&self) -> bool;

    /// The possible outcomes of a parse started in state `before`.
    spec fn spec_parse(&self, before: I, after: I, r: PResult<Self::Output, Self::Error>) -> bool;

    fn parse_next(&mut self, input: &mut I) -> (r: PResult<Self::Output, Self::Error>)
        requires
            old(self).inv(),
            old(input).wf(),
        ensures
            *final(self) == *old(self),
            old(input).advanced(*final(input)),
            old(self).spec_parse(*old(input), *final(input), r),
    ;
}

impl<I: Input, P: Parser<I>> Parser<I> for Box<P> {
    type Output = P::Output;
    type Error = P::Error;

    open spec fn inv(&self) -> bool {
        (**self).inv()
    }

    open spec fn spec_parse(&self, before: I, after: I, r: PResult<P::Output, P::Error>) -> bool {
        (**self).spec_parse(before, after, r)
    }

    fn parse_next(&mut self, input: &mut I) -> (r: PResult<P::Output, P::Error>) {
        (**self).parse_next(input)
    }
}

} // verus!
