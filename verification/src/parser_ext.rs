//! Builder methods that wrap a parser in a combinator.
use vstd::prelude::*;
use crate::combinator::attempt::Attempt;
use crate::combinator::cut::Cut;
use crate::combinator::flat_map::FlatMap;
use crate::combinator::many::Many;
use crate::combinator::map::Mapped;
use crate::combinator::optional::Optional;
use crate::combinator::or::Or;
use crate::combinator::zip::Zip;
use crate::combinator::zip_left::ZipLeft;
use crate::combinator::zip_right::ZipRight;
use crate::input::Input;
use crate::parser::Parser;

verus! {

/// Combinator methods available on every parser.
pub trait ParserExt<I: Input>: Parser<I> + Sized {
    /// Transform the value with `f`.
    fn map<F, O2>(self, f: F) -> (r: Mapped<Self, F>) where F: Fn(Self::Output) -> O2
        ensures
            r.parser == self,
            r.f == f,
    {
        Mapped { parser: self, f }
    }

    /// Run `self`, then `rhs`, and pair the values.
    fn zip<P2>(self, rhs: P2) -> (r: Zip<Self, P2>) where P2: Parser<I, Error = Self::Error>
        ensures
            r.first == self,
            r.second == rhs,
    {
        Zip { first: self, second: rhs }
    }

    /// Same as `zip`.
    fn then<P2>(self, rhs: P2) -> (r: Zip<Self, P2>) where P2: Parser<I, Error = Self::Error>
        ensures
            r.first == self,
            r.second == rhs,
    {
        Zip { first: self, second: rhs }
    }

    /// Run `self`, then `rhs`, and keep the value of `self`.
    fn zip_left<P2>(self, rhs: P2) -> (r: ZipLeft<Self, P2>) where P2: Parser<I, Error = Self::Error>
        ensures
            r.first == self,
            r.second == rhs,
    {
        ZipLeft { first: self, second: rhs }
    }

    /// Run `self`, then `rhs`, and keep the value of `rhs`.
    fn zip_right<P2>(self, rhs: P2) -> (r: ZipRight<Self, P2>) where P2: Parser<I, Error = Self::Error>
        ensures
            r.first == self,
            r.second == rhs,
    {
        ZipRight { first: self, second: rhs }
    }

    /// Try `rhs` when `self` fails with `Backtrack`.
    fn or<P2>(self, rhs: P2) -> (r: Or<Self, P2>) where
        P2: Parser<I, Output = Self::Output, Error = Self::Error>,
        ensures
            r.left == self,
            r.right == rhs,
    {
        Or { left: self, right: rhs }
    }

    /// Turn `Cut` into `Backtrack`.
    fn attempt(self) -> (r: Attempt<Self>)
        ensures
            r.parser == self,
    {
        Attempt { parser: self }
    }

    /// Turn `Backtrack` into `Cut`.
    fn cut(self) -> (r: Cut<Self>)
        ensures
            r.parser == self,
    {
        Cut { parser: self }
    }

    /// Turn `Backtrack` into `None`.
    fn optional(self) -> (r: Optional<Self>)
        ensures
            r.parser == self,
    {
        Optional { parser: self }
    }

    /// Repeat zero or more times.
    fn many0(self) -> (r: Many<Self>)
        ensures
            r.parser == self,
    {
        Many { parser: self }
    }

    /// Choose the next parser from the value.
    fn flat_map<F, P2>(self, f: F) -> (r: FlatMap<Self, F>) where
        P2: Parser<I, Error = Self::Error>,
        F: Fn(Self::Output) -> P2,
        ensures
            r.parser == self,
            r.f == f,
            <FlatMap<Self, F> as Parser<I>>::inv(&r) <==> (self.inv() && (forall|v: Self::Output| call_requires(f, (v,)))
                && (forall|v: Self::Output, q: P2| #[trigger] call_ensures(f, (v,), q) ==> q.inv())),
    {
        FlatMap { parser: self, f }
    }

    /// Same as `flat_map`.
    fn and_then<F, P2>(self, f: F) -> (r: FlatMap<Self, F>) where
        P2: Parser<I, Error = Self::Error>,
        F: Fn(Self::Output) -> P2,
        ensures
            r.parser == self,
            r.f == f,
            <FlatMap<Self, F> as Parser<I>>::inv(&r) <==> (self.inv() && (forall|v: Self::Output| call_requires(f, (v,)))
                && (forall|v: Self::Output, q: P2| #[trigger] call_ensures(f, (v,), q) ==> q.inv())),
    {
        FlatMap { parser: self, f }
    }
}

impl<I: Input, P: Parser<I> + Sized> ParserExt<I> for P {
}

} // verus!
