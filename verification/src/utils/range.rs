//! Bounds of a repetition count.
use vstd::prelude::*;

verus! {

/// One end of a range of counts.
#[derive(Debug, Clone, Copy, PartialEq, Eq, Structural)]
pub enum Bound {
    Excluded(usize),
    Included(usize),
    Unbounded,
}

/// A range of counts, given by its two ends.
pub trait RangeArgument {
    /// The lower end.
    spec fn spec_start(&self) -> Bound;

    /// The upper end.
    spec fn spec_end(&self) -> Bound;

    /// The lower end.
    fn start(&self) -> (b: Bound)
        ensures
            b == self.spec_start(),
    ;

    /// The upper end.
    fn end(&self) -> (b: Bound)
        ensures
            b == self.spec_end(),
    ;
}

/// The range of counts `start..=end`, `start..`, `..end` and so on.
#[derive(Debug, Clone, Copy, PartialEq, Eq, Structural)]
pub struct CountRange {
    pub start: Bound,
    pub end: Bound,
}

impl RangeArgument for CountRange {
    open spec fn spec_start(&self) -> Bound {
        self.start
    }

    open spec fn spec_end(&self) -> Bound {
        self.end
    }

    fn start(&self) -> (b: Bound) {
        proof {
            assert(self.spec_start() == self.start);
        }
        self.start
    }

    fn end(&self) -> (b: Bound) {
        proof {
            assert(self.spec_end() == self.end);
        }
        self.end
    }
}

/// Exactly `n`.
impl RangeArgument for usize {
    open spec fn spec_start(&self) -> Bound {
        Bound::Included(*self)
    }

    open spec fn spec_end(&self) -> Bound {
        Bound::Included(*self)
    }

    fn start(&self) -> (b: Bound) {
        proof {
            assert(self.spec_start() == Bound::Included(*self));
        }
        Bound::Included(*self)
    }

    fn end(&self) -> (b: Bound) {
        proof {
            assert(self.spec_end() == Bound::Included(*self));
        }
        Bound::Included(*self)
    }
}

/// `start..end`: at least `start`, fewer than `end`.
impl RangeArgument for core::ops::Range<usize> {
    open spec fn spec_start(&self) -> Bound {
        Bound::Included(self.start)
    }

    open spec fn spec_end(&self) -> Bound {
        Bound::Excluded(self.end)
    }

    fn start(&self) -> (b: Bound) {
        proof {
            assert(self.spec_start() == Bound::Included(self.start));
        }
        Bound::Included(self.start)
    }

    fn end(&self) -> (b: Bound) {
        proof {
            assert(self.spec_end() == Bound::Excluded(self.end));
        }
        Bound::Excluded(self.end)
    }
}

/// `RangeInclusive::start`: the lower bound the range was made with.
#[verifier::external_body]
pub(crate) fn inclusive_lower<T: Copy>(r: &core::ops::RangeInclusive<T>) -> (s: T)
    ensures
        s == r@.start,
{
    *core::ops::RangeInclusive::<T>::start(r)
}

/// `RangeInclusive::end`: the upper bound the range was made with.
#[verifier::external_body]
pub(crate) fn inclusive_upper<T: Copy>(r: &core::ops::RangeInclusive<T>) -> (e: T)
    ensures
        e == r@.end,
{
    *core::ops::RangeInclusive::<T>::end(r)
}

/// The range `..`, of any count or any element.
#[verifier::external_type_specification]
#[verifier::external_body]
pub struct ExRangeFull(core::ops::RangeFull);

/// `..`: any count.
impl RangeArgument for core::ops::RangeFull {
    open spec fn spec_start(&self) -> Bound {
        Bound::Unbounded
    }

    open spec fn spec_end(&self) -> Bound {
        Bound::Unbounded
    }

    fn start(&self) -> (b: Bound) {
        Bound::Unbounded
    }

    fn end(&self) -> (b: Bound) {
        Bound::Unbounded
    }
}

/// `start..=end`: at least `start`, at most `end`.
impl RangeArgument for core::ops::RangeInclusive<usize> {
    open spec fn spec_start(&self) -> Bound {
        Bound::Included(self@.start)
    }

    open spec fn spec_end(&self) -> Bound {
        Bound::Included(self@.end)
    }

    fn start(&self) -> (b: Bound) {
        let s = inclusive_lower::<usize>(self);
        proof {
            assert(self.spec_start() == Bound::Included(s));
        }
        Bound::Included(s)
    }

    fn end(&self) -> (b: Bound) {
        let e = inclusive_upper::<usize>(self);
        proof {
            assert(self.spec_end() == Bound::Included(e));
        }
        Bound::Included(e)
    }
}

impl CountRange {
    /// `..`: any count.
    pub fn full() -> (r: CountRange)
        ensures
            r == (CountRange { start: Bound::Unbounded, end: Bound::Unbounded }),
    {
        CountRange { start: Bound::Unbounded, end: Bound::Unbounded }
    }

    /// `start..`: at least `start`.
    pub fn from(start: usize) -> (r: CountRange)
        ensures
            r == (CountRange { start: Bound::Included(start), end: Bound::Unbounded }),
    {
        CountRange { start: Bound::Included(start), end: Bound::Unbounded }
    }

    /// `start..end`: at least `start`, fewer than `end`.
    pub fn between(start: usize, end: usize) -> (r: CountRange)
        ensures
            r == (CountRange { start: Bound::Included(start), end: Bound::Excluded(end) }),
    {
        CountRange { start: Bound::Included(start), end: Bound::Excluded(end) }
    }

    /// `start..=end`: at least `start`, at most `end`.
    pub fn between_inclusive(start: usize, end: usize) -> (r: CountRange)
        ensures
            r == (CountRange { start: Bound::Included(start), end: Bound::Included(end) }),
    {
        CountRange { start: Bound::Included(start), end: Bound::Included(end) }
    }

    /// `..end`: fewer than `end`.
    pub fn to(end: usize) -> (r: CountRange)
        ensures
            r == (CountRange { start: Bound::Unbounded, end: Bound::Excluded(end) }),
    {
        CountRange { start: Bound::Unbounded, end: Bound::Excluded(end) }
    }

    /// `..=end`: at most `end`.
    pub fn to_inclusive(end: usize) -> (r: CountRange)
        ensures
            r == (CountRange { start: Bound::Unbounded, end: Bound::Included(end) }),
    {
        CountRange { start: Bound::Unbounded, end: Bound::Included(end) }
    }
}

} // verus!
