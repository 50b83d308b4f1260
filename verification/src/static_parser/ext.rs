//! Builder methods that wrap a slice parser in a combinator.
use vstd::prelude::*;
use super::choice::{Attempt, Either, Exists, NotCommitted, NotPred, Opt, Or, Peek};
use super::position::{Collect, LastOffset, Named, NextOffset};
use super::chain::{ChainLeft1, RestLeft1, RestRight1, applicable};
use super::primitives::{Successful, Unit};
use super::repeat::RepSep;
use super::runner::ParserRunner;
use super::sequence::{AndThen, SkipLeft, SkipRight};
use super::transform::{Discard, FlatMap, MapRes, MapValue, WithFilter};
use crate::utils::range::{Bound, CountRange, RangeArgument};

verus! {

/// Combinator methods available on every slice parser.
pub trait StaticParserExt<'a, I: 'a>: ParserRunner<'a, I> + Sized {
    /// Maps the value of a success with `f`.
    fn map<B, F: Fn(Self::Output) -> B>(self, f: F) -> (p: MapValue<Self, F>)
        ensures
            p.parser == self,
            p.f == f,
    {
        MapValue { parser: self, f }
    }

    /// Runs the parser that `f` builds from the value, after this one.
    fn flat_map<Q: ParserRunner<'a, I>, F: Fn(Self::Output) -> Q>(self, f: F) -> (p: FlatMap<Self, F>)
        ensures
            p.parser == self,
            p.f == f,
            <FlatMap<Self, F> as ParserRunner<'a, I>>::inv(&p) <==> (self.inv() && (forall|v: Self::Output|
                call_requires(f, (v,))) && (forall|v: Self::Output, q: Q| #[trigger] call_ensures(f, (v,), q) ==> q.inv())),
    {
        FlatMap { parser: self, f }
    }

    /// Converts the value with `f`; an `Err` fails.
    fn map_res<B, E: core::fmt::Debug, F: Fn(Self::Output) -> Result<B, E>>(self, f: F) -> (p: MapRes<Self, F>)
        ensures
            p.parser == self,
            p.f == f,
            <MapRes<Self, F> as ParserRunner<'a, I>>::inv(&p) <==> (self.inv() && forall|v: Self::Output|
                call_requires(f, (v,))),
    {
        MapRes { parser: self, f }
    }

    /// Keeps a success only when `f` accepts its value.
    fn with_filter<F: Fn(&Self::Output) -> bool>(self, f: F) -> (p: WithFilter<Self, F>)
        ensures
            p.parser == self,
            p.f == f,
            <WithFilter<Self, F> as ParserRunner<'a, I>>::inv(&p) <==> (self.inv() && forall|v: Self::Output|
                call_requires(f, (&v,))),
    {
        WithFilter { parser: self, f }
    }

    /// Same as `with_filter`.
    fn filter<F: Fn(&Self::Output) -> bool>(self, f: F) -> (p: WithFilter<Self, F>)
        ensures
            p.parser == self,
            p.f == f,
            <WithFilter<Self, F> as ParserRunner<'a, I>>::inv(&p) <==> (self.inv() && forall|v: Self::Output|
                call_requires(f, (&v,))),
    {
        WithFilter { parser: self, f }
    }

    /// Replaces the value with `()`.
    fn discard(self) -> (p: Discard<Self>)
        ensures
            p.parser == self,
    {
        Discard { parser: self }
    }

    /// Runs `other` after this parser and pairs the values.
    fn and_then<Q: ParserRunner<'a, I>>(self, other: Q) -> (p: AndThen<Self, Q>)
        ensures
            p.first == self,
            p.second == other,
    {
        AndThen { first: self, second: other }
    }

    /// Runs `other` after this parser and keeps its value.
    fn skip_left<Q: ParserRunner<'a, I>>(self, other: Q) -> (p: SkipLeft<Self, Q>)
        ensures
            p.first == self,
            p.second == other,
    {
        SkipLeft { first: self, second: other }
    }

    /// Runs `other` after this parser and keeps this parser's value.
    fn skip_right<Q: ParserRunner<'a, I>>(self, other: Q) -> (p: SkipRight<Self, Q>)
        ensures
            p.first == self,
            p.second == other,
    {
        SkipRight { first: self, second: other }
    }

    /// Runs `left`, this parser and `right`, keeping this parser's value.
    fn surround<L: ParserRunner<'a, I>, R: ParserRunner<'a, I>>(self, left: L, right: R) -> (p: SkipLeft<
        L,
        SkipRight<Self, R>,
    >)
        ensures
            p.first == left,
            p.second.first == self,
            p.second.second == right,
    {
        SkipLeft { first: left, second: SkipRight { first: self, second: right } }
    }

    /// Tries `other` after an uncommitted failure.
    fn or<Q: ParserRunner<'a, I, Output = Self::Output>>(self, other: Q) -> (p: Or<Self, Q>)
        ensures
            p.first == self,
            p.second == other,
    {
        Or { first: self, second: other }
    }

    /// Tries `other` after an uncommitted failure, reporting both errors when it
    /// fails too.
    fn either<Q: ParserRunner<'a, I, Output = Self::Output>>(self, other: Q) -> (p: Either<Self, Q>)
        ensures
            p.first == self,
            p.second == other,
    {
        Either { first: self, second: other }
    }

    /// Makes a failure uncommitted.
    fn attempt(self) -> (p: Attempt<Self>)
        ensures
            p.parser == self,
    {
        Attempt { parser: self }
    }

    /// `Some` of a success, `None` after a failure.
    fn opt(self) -> (p: Opt<Self>)
        ensures
            p.parser == self,
    {
        Opt { parser: self }
    }

    /// Whether this parser succeeds, consuming nothing.
    fn exists_match(self) -> (p: Exists<Self>)
        ensures
            p.parser == self,
    {
        Exists { parser: self }
    }

    /// Succeeds, consuming nothing, exactly when this parser fails.
    fn not(self) -> (p: NotPred<Self>)
        ensures
            p.parser == self,
    {
        NotPred { parser: self }
    }

    /// Succeeds, consuming nothing, after an uncommitted failure of this parser.
    fn negate(self) -> (p: NotCommitted<Self>)
        ensures
            p.parser == self,
    {
        NotCommitted { parser: self }
    }

    /// Runs this parser without consuming.
    fn peek(self) -> (p: Peek<Self>)
        ensures
            p.parser == self,
    {
        Peek { parser: self }
    }

    /// Gives the elements consumed.
    fn collect(self) -> (p: Collect<Self>)
        ensures
            p.parser == self,
    {
        Collect { parser: self }
    }

    /// Gives the offset of the last consumed element.
    fn last_offset(self) -> (p: LastOffset<Self>)
        ensures
            p.parser == self,
    {
        LastOffset { parser: self }
    }

    /// Gives the offset where the parse stopped.
    fn next_offset(self) -> (p: NextOffset<Self>)
        ensures
            p.parser == self,
    {
        NextOffset { parser: self }
    }

    /// Names this parser in its errors.
    fn name(self, name: &'static str) -> (p: Named<Self>)
        ensures
            p.parser == self,
            p.name == name,
    {
        Named { parser: self, name }
    }

    /// Folds `op parser op parser ...` from the left, starting from `x`.
    fn rest_left1<Q: ParserRunner<'a, I>>(self, op: Q, x: Self::Output) -> (p: RestLeft1<Self, Q, Self::Output>)
        ensures
            p.parser == self,
            p.op == op,
            p.x == x,
    {
        RestLeft1 { parser: self, op, x }
    }

    /// Reads `self (op self)*`, folding the values from the left.
    fn chain_left1<Q: ParserRunner<'a, I>>(self, op: Q) -> (p: ChainLeft1<Self, Q>) where
        Self::Output: Clone,
        Q::Output: Fn(Self::Output, Self::Output) -> Self::Output,
        ensures
            p.parser == self,
            p.op == op,
            <ChainLeft1<Self, Q> as ParserRunner<'a, I>>::inv(&p) <==> (self.inv() && op.inv() && applicable::<
                Self::Output,
                Q::Output,
            >()),
    {
        ChainLeft1 { parser: self, op }
    }

    /// Reads `self (op self)*`, folding the values from the left like
    /// `chain_left1`.
    fn chain_right1<Q: ParserRunner<'a, I>>(self, op: Q) -> (p: ChainLeft1<Self, Q>) where
        Self::Output: Clone,
        Q::Output: Fn(Self::Output, Self::Output) -> Self::Output,
        ensures
            p.parser == self,
            p.op == op,
            <ChainLeft1<Self, Q> as ParserRunner<'a, I>>::inv(&p) <==> (self.inv() && op.inv() && applicable::<
                Self::Output,
                Q::Output,
            >()),
    {
        ChainLeft1 { parser: self, op }
    }

    /// Reads `self (op self)*`, folding the values from the left like
    /// `chain_left1`.
    fn scan_right1<Q: ParserRunner<'a, I>>(self, op: Q) -> (p: ChainLeft1<Self, Q>) where
        Self::Output: Clone,
        Q::Output: Fn(Self::Output, Self::Output) -> Self::Output,
        ensures
            p.parser == self,
            p.op == op,
            <ChainLeft1<Self, Q> as ParserRunner<'a, I>>::inv(&p) <==> (self.inv() && op.inv() && applicable::<
                Self::Output,
                Q::Output,
            >()),
    {
        ChainLeft1 { parser: self, op }
    }

    /// One `op self` after `x`, combined as `f(x, y)`; `x` when `op` fails.
    fn rest_right1<Q: ParserRunner<'a, I>>(self, op: Q, x: Self::Output) -> (p: RestRight1<Self, Q, Self::Output>)
        ensures
            p.parser == self,
            p.op == op,
            p.x == x,
    {
        RestRight1 { parser: self, op, x }
    }

    /// This parser, or `x` after an uncommitted failure; `op` is not used.
    fn chain_left0<Q: ParserRunner<'a, I>>(self, op: Q, x: Self::Output) -> (p: Or<Self, Successful<Self::Output>>)
        ensures
            p.first == self,
            p.second.value == x,
    {
        Or { first: self, second: Successful { value: x } }
    }

    /// This parser, or `x` after an uncommitted failure; `op` is not used.
    fn chain_right0<Q: ParserRunner<'a, I>>(self, op: Q, x: Self::Output) -> (p: Or<Self, Successful<Self::Output>>)
        ensures
            p.first == self,
            p.second.value == x,
    {
        Or { first: self, second: Successful { value: x } }
    }

    /// Repeats this parser as many times as `range` allows.
    fn repeat<R: RangeArgument>(self, range: R) -> (p: RepSep<Self, Unit>)
        ensures
            p.parser == self,
            p.range == (CountRange { start: range.spec_start(), end: range.spec_end() }),
            p.separator is None,
    {
        RepSep { parser: self, range: CountRange { start: range.start(), end: range.end() }, separator: None }
    }

    /// Zero or more times.
    fn of_many0(self) -> (p: RepSep<Self, Unit>)
        ensures
            p.parser == self,
            p.range == (CountRange { start: Bound::Included(0), end: Bound::Unbounded }),
            p.separator is None,
    {
        RepSep { parser: self, range: CountRange::from(0), separator: None }
    }

    /// One or more times.
    fn of_many1(self) -> (p: RepSep<Self, Unit>)
        ensures
            p.parser == self,
            p.range == (CountRange { start: Bound::Included(1), end: Bound::Unbounded }),
            p.separator is None,
    {
        RepSep { parser: self, range: CountRange::from(1), separator: None }
    }

    /// From `n` to `m` times.
    fn of_many_n_m(self, n: usize, m: usize) -> (p: RepSep<Self, Unit>)
        ensures
            p.parser == self,
            p.range == (CountRange { start: Bound::Included(n), end: Bound::Included(m) }),
            p.separator is None,
    {
        RepSep { parser: self, range: CountRange::between_inclusive(n, m), separator: None }
    }

    /// Exactly `n` times.
    fn of_count(self, n: usize) -> (p: RepSep<Self, Unit>)
        ensures
            p.parser == self,
            p.range == (CountRange { start: Bound::Included(n), end: Bound::Included(n) }),
            p.separator is None,
    {
        RepSep { parser: self, range: CountRange::between_inclusive(n, n), separator: None }
    }

    /// As many times as `range` allows, with `separator` between items.
    fn of_rep_sep<S: ParserRunner<'a, I>, R: RangeArgument>(self, range: R, separator: Option<S>) -> (p: RepSep<
        Self,
        S,
    >)
        ensures
            p.parser == self,
            p.range == (CountRange { start: range.spec_start(), end: range.spec_end() }),
            p.separator == separator,
    {
        RepSep { parser: self, range: CountRange { start: range.start(), end: range.end() }, separator }
    }

    /// Zero or more times with `separator` between items.
    fn of_many0_sep<S: ParserRunner<'a, I>>(self, separator: S) -> (p: RepSep<Self, S>)
        ensures
            p.parser == self,
            p.range == (CountRange { start: Bound::Included(0), end: Bound::Unbounded }),
            p.separator == Some(separator),
    {
        RepSep { parser: self, range: CountRange::from(0), separator: Some(separator) }
    }

    /// One or more times with `separator` between items.
    fn of_many1_sep<S: ParserRunner<'a, I>>(self, separator: S) -> (p: RepSep<Self, S>)
        ensures
            p.parser == self,
            p.range == (CountRange { start: Bound::Included(1), end: Bound::Unbounded }),
            p.separator == Some(separator),
    {
        RepSep { parser: self, range: CountRange::from(1), separator: Some(separator) }
    }

    /// From `n` to `m` times with `separator` between items.
    fn of_many_n_m_sep<S: ParserRunner<'a, I>>(self, n: usize, m: usize, separator: S) -> (p: RepSep<Self, S>)
        ensures
            p.parser == self,
            p.range == (CountRange { start: Bound::Included(n), end: Bound::Included(m) }),
            p.separator == Some(separator),
    {
        RepSep { parser: self, range: CountRange::between_inclusive(n, m), separator: Some(separator) }
    }

    /// Exactly `n` times with `separator` between items.
    fn of_count_sep<S: ParserRunner<'a, I>>(self, n: usize, separator: S) -> (p: RepSep<Self, S>)
        ensures
            p.parser == self,
            p.range == (CountRange { start: Bound::Included(n), end: Bound::Included(n) }),
            p.separator == Some(separator),
    {
        RepSep { parser: self, range: CountRange::between_inclusive(n, n), separator: Some(separator) }
    }
}

impl<'a, I: 'a, P: ParserRunner<'a, I>> StaticParserExt<'a, I> for P {

}

} // verus!
