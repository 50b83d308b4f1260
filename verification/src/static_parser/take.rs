//! Parsers that take runs of elements as slices.
use vstd::prelude::*;
use vstd::slice::{slice_subrange, slice_to_vec};
use super::error::{CommittedStatus, ParseError};
use super::predicate::ElementPredicate;
use super::result::{ParseResult, is_mismatch, is_incomplete, passes_failure};
use super::runner::ParserRunner;

verus! {

/// The test answers `want` on the first `j` elements from `offset`, `j` is at
/// most `m`, and the run stops at `j` only because the input ends, `m` is
/// reached or the test answers otherwise on the next element.
pub open spec fn bounded_run<I, P: ElementPredicate<I>>(p: P, input: Seq<I>, offset: int, m: int, j: int, want: bool) -> bool {
    &&& 0 <= j <= m
    &&& offset + j <= input.len()
    &&& forall|k: int| offset <= k < offset + j ==> #[trigger] p.decides(input[k], want)
    &&& (offset + j < input.len() && j < m) ==> p.decides(input[offset + j], !want)
}

/// Counts the elements from `offset` on which the test answers `want`, up to `m`
/// of them.
pub fn scan_run<I, P: ElementPredicate<I>>(p: &P, input: &[I], offset: usize, m: usize, want: bool) -> (j: usize)
    requires
        p.inv(),
        offset <= input@.len(),
    ensures
        bounded_run(*p, input@, offset as int, m as int, j as int, want),
{
    let len = input.len();
    let mut j: usize = 0;
    loop
        invariant
            p.inv(),
            len == input@.len(),
            offset <= len,
            0 <= j <= m,
            offset + j <= len,
            forall|k: int| offset <= k < offset + j ==> #[trigger] p.decides(input@[k], want),
        ensures
            bounded_run(*p, input@, offset as int, m as int, j as int, want),
        decreases len - offset - j,
    {
        if j >= m || offset + j >= len {
            break;
        }
        let ok = p.test(&input[offset + j]);
        if ok != want {
            break;
        }
        j = j + 1;
    }
    j
}

/// The message of a failure at the end of the input.
pub open spec fn end_of_input_message() -> Seq<char> {
    "unexpected end of input"@
}

/// Takes the next `n` elements.
pub struct Take<I> {
    pub n: usize,
    pub element: core::marker::PhantomData<I>,
}

impl<I> Take<I> {
    /// Takes `n` elements.
    pub fn new(n: usize) -> (p: Self)
        ensures
            p.n == n,
    {
        Take { n, element: core::marker::PhantomData }
    }
}

impl<'a, I: 'a> ParserRunner<'a, I> for Take<I> {
    type Output = &'a [I];

    open spec fn inv(&self) -> bool {
        true
    }

    /// Succeeds with the next `n` elements when there are that many; otherwise an
    /// uncommitted mismatch at the offset.
    open spec fn accepts(&self, input: Seq<I>, offset: int, r: ParseResult<&'a [I]>) -> bool {
        if offset + self.n <= input.len() {
            r matches ParseResult::Success { value, length }
                && length == self.n && value@ == input.subrange(offset, offset + self.n)
        } else {
            is_mismatch(r, offset, 0, end_of_input_message())
        }
    }

    fn run(&self, input: &'a [I], offset: usize) -> (r: ParseResult<&'a [I]>) {
        let len = input.len();
        if self.n <= len - offset {
            ParseResult::successful(slice_subrange(input, offset, offset + self.n), self.n)
        } else {
            ParseResult::failed_with_uncommitted(
                ParseError::of_mismatch(offset, 0, "unexpected end of input".to_owned()),
            )
        }
    }
}

/// Skips the next `n` elements.
pub struct Skip<I> {
    pub n: usize,
    pub element: core::marker::PhantomData<I>,
}

impl<I> Skip<I> {
    /// Skips `n` elements.
    pub fn new(n: usize) -> (p: Self)
        ensures
            p.n == n,
    {
        Skip { n, element: core::marker::PhantomData }
    }
}

impl<'a, I: 'a> ParserRunner<'a, I> for Skip<I> {
    type Output = ();

    open spec fn inv(&self) -> bool {
        true
    }

    /// Succeeds consuming `n` elements when there are that many; otherwise an
    /// uncommitted mismatch at the offset.
    open spec fn accepts(&self, input: Seq<I>, offset: int, r: ParseResult<()>) -> bool {
        if offset + self.n <= input.len() {
            r == (ParseResult::Success { value: (), length: self.n })
        } else {
            is_mismatch(r, offset, 0, end_of_input_message())
        }
    }

    fn run(&self, input: &'a [I], offset: usize) -> (r: ParseResult<()>) {
        let len = input.len();
        if self.n <= len - offset {
            ParseResult::successful((), self.n)
        } else {
            ParseResult::failed_with_uncommitted(
                ParseError::of_mismatch(offset, 0, "unexpected end of input".to_owned()),
            )
        }
    }
}

/// Takes the longest run of elements that pass the test, possibly empty.
pub struct TakeWhile0<P> {
    pub pred: P,
}

impl<'a, I: 'a, P: ElementPredicate<I>> ParserRunner<'a, I> for TakeWhile0<P> {
    type Output = &'a [I];

    open spec fn inv(&self) -> bool {
        self.pred.inv()
    }

    /// Always succeeds with the longest run from the offset.
    open spec fn accepts(&self, input: Seq<I>, offset: int, r: ParseResult<&'a [I]>) -> bool {
        r matches ParseResult::Success { value, length }
            && bounded_run(self.pred, input, offset, input.len() - offset, length as int, true)
            && value@ == input.subrange(offset, offset + length)
    }

    fn run(&self, input: &'a [I], offset: usize) -> (r: ParseResult<&'a [I]>) {
        let len = input.len();
        let j = scan_run(&self.pred, input, offset, len - offset, true);
        ParseResult::successful(slice_subrange(input, offset, offset + j), j)
    }
}

/// Takes the longest run of elements that pass the test; fails on an empty run.
pub struct TakeWhile1<P> {
    pub pred: P,
}

impl<'a, I: 'a, P: ElementPredicate<I>> ParserRunner<'a, I> for TakeWhile1<P> {
    type Output = &'a [I];

    open spec fn inv(&self) -> bool {
        self.pred.inv()
    }

    /// At the end of the input, or when the first element fails the test: an
    /// uncommitted `Incomplete`. Otherwise the longest run from the offset.
    open spec fn accepts(&self, input: Seq<I>, offset: int, r: ParseResult<&'a [I]>) -> bool {
        if offset >= input.len() {
            is_incomplete(r)
        } else {
            ||| (self.pred.decides(input[offset], false) && is_incomplete(r))
            ||| (r matches ParseResult::Success { value, length }
                && length > 0
                && bounded_run(self.pred, input, offset, input.len() - offset, length as int, true)
                && value@ == input.subrange(offset, offset + length))
        }
    }

    fn run(&self, input: &'a [I], offset: usize) -> (r: ParseResult<&'a [I]>) {
        let len = input.len();
        if offset >= len {
            return ParseResult::failed_with_uncommitted(ParseError::of_in_complete());
        }
        let j = scan_run(&self.pred, input, offset, len - offset, true);
        if j > 0 {
            ParseResult::successful(slice_subrange(input, offset, offset + j), j)
        } else {
            ParseResult::failed_with_uncommitted(ParseError::of_in_complete())
        }
    }
}

/// Takes the run of elements from the offset that pass the test, stopping after
/// `m` of them even when more would pass; fails when the run is shorter than
/// `n`. The run starts at the offset: nothing before a passing element is skipped.
pub struct TakeWhileNM<P> {
    pub n: usize,
    pub m: usize,
    pub pred: P,
}

impl<'a, I: 'a, P: ElementPredicate<I>> ParserRunner<'a, I> for TakeWhileNM<P> {
    type Output = &'a [I];

    open spec fn inv(&self) -> bool {
        self.pred.inv()
    }

    /// At the end of the input: an uncommitted `Incomplete`. Otherwise the run of
    /// at most `m` elements from the offset, which must hold at least `n`.
    open spec fn accepts(&self, input: Seq<I>, offset: int, r: ParseResult<&'a [I]>) -> bool {
        if offset >= input.len() {
            is_incomplete(r)
        } else {
            exists|j: int| #[trigger] bounded_run(self.pred, input, offset, self.m as int, j, true) && if j >= self.n {
                r matches ParseResult::Success { value, length }
                    && length == j && value@ == input.subrange(offset, offset + j)
            } else {
                is_incomplete(r)
            }
        }
    }

    fn run(&self, input: &'a [I], offset: usize) -> (r: ParseResult<&'a [I]>) {
        let len = input.len();
        if offset >= len {
            return ParseResult::failed_with_uncommitted(ParseError::of_in_complete());
        }
        let j = scan_run(&self.pred, input, offset, self.m, true);
        if j >= self.n {
            ParseResult::successful(slice_subrange(input, offset, offset + j), j)
        } else {
            ParseResult::failed_with_uncommitted(ParseError::of_in_complete())
        }
    }
}

/// Takes elements up to and including the first that passes the test, or all
/// the rest when none does.
pub struct TakeTill0<P> {
    pub pred: P,
}

impl<'a, I: 'a, P: ElementPredicate<I>> ParserRunner<'a, I> for TakeTill0<P> {
    type Output = &'a [I];

    open spec fn inv(&self) -> bool {
        self.pred.inv()
    }

    /// Always succeeds: the elements before the first one that passes the test,
    /// that one included; all the rest when none passes.
    open spec fn accepts(&self, input: Seq<I>, offset: int, r: ParseResult<&'a [I]>) -> bool {
        exists|i: int| #[trigger] bounded_run(self.pred, input, offset, input.len() - offset, i, false) && {
            let n = if offset + i < input.len() { i + 1 } else { i };
            r matches ParseResult::Success { value, length }
                && length == n && value@ == input.subrange(offset, offset + n)
        }
    }

    fn run(&self, input: &'a [I], offset: usize) -> (r: ParseResult<&'a [I]>) {
        let len = input.len();
        let i = scan_run(&self.pred, input, offset, len - offset, false);
        let n = if i < len - offset { i + 1 } else { i };
        ParseResult::successful(slice_subrange(input, offset, offset + n), n)
    }
}

/// Takes elements up to the first that passes the test, which must exist and
/// must not be the first element. With `include_match` the result ends with the
/// matching element; otherwise it stops before it.
pub struct TakeTill1<P> {
    pub pred: P,
    pub include_match: bool,
}

impl<'a, I: 'a, P: ElementPredicate<I>> ParserRunner<'a, I> for TakeTill1<P> {
    type Output = &'a [I];

    open spec fn inv(&self) -> bool {
        self.pred.inv()
    }

    /// With `i` elements before the first one that passes the test: fails with an
    /// uncommitted `Incomplete` when `i` is zero or no element passes; otherwise
    /// succeeds with those `i` elements, and the matching one with `include_match`.
    open spec fn accepts(&self, input: Seq<I>, offset: int, r: ParseResult<&'a [I]>) -> bool {
        exists|i: int| #[trigger] bounded_run(self.pred, input, offset, input.len() - offset, i, false) && if i
            == 0 || offset + i >= input.len() {
            is_incomplete(r)
        } else {
            let n = if self.include_match { i + 1 } else { i };
            r matches ParseResult::Success { value, length }
                && length == n && value@ == input.subrange(offset, offset + n)
        }
    }

    fn run(&self, input: &'a [I], offset: usize) -> (r: ParseResult<&'a [I]>) {
        let len = input.len();
        let i = scan_run(&self.pred, input, offset, len - offset, false);
        if i == 0 || i >= len - offset {
            ParseResult::failed_with_uncommitted(ParseError::of_in_complete())
        } else {
            let n = if self.include_match { i + 1 } else { i };
            ParseResult::successful(slice_subrange(input, offset, offset + n), n)
        }
    }
}

/// Skips the elements that fail the test, then takes the run of elements that
/// pass it; succeeds when the run has at least `n` elements and, with
/// `m` given, at most `m`. A non-empty run consumes the skipped elements too; an
/// empty one consumes nothing.
pub struct SeekWhile<P> {
    pub pred: P,
    pub n: usize,
    pub m: Option<usize>,
}

/// The run of `j` passing elements that follows the `s` failing ones at `offset`.
pub open spec fn sought_run<I, P: ElementPredicate<I>>(p: P, input: Seq<I>, offset: int, s: int, j: int) -> bool {
    &&& bounded_run(p, input, offset, input.len() - offset, s, false)
    &&& bounded_run(p, input, offset + s, input.len() - offset - s, j, true)
}

impl<'a, I: 'a, P: ElementPredicate<I>> ParserRunner<'a, I> for SeekWhile<P> {
    type Output = &'a [I];

    open spec fn inv(&self) -> bool {
        self.pred.inv()
    }

    /// With `s` failing elements at the offset and then a run of `j` passing ones:
    /// when `n <= j` (and `j <= m` when `m` is given), that run, consuming
    /// `s + j` elements (none when `j` is zero); otherwise an uncommitted
    /// `Incomplete`.
    open spec fn accepts(&self, input: Seq<I>, offset: int, r: ParseResult<&'a [I]>) -> bool {
        exists|s: int, j: int| #[trigger] sought_run(self.pred, input, offset, s, j) && if j >= self.n && (self.m
            matches Some(mm) ==> j <= mm) {
            r matches ParseResult::Success { value, length }
                && value@ == input.subrange(offset + s, offset + s + j)
                && length == (if j == 0 { 0 } else { s + j })
        } else {
            is_incomplete(r)
        }
    }

    fn run(&self, input: &'a [I], offset: usize) -> (r: ParseResult<&'a [I]>) {
        let len = input.len();
        let s = scan_run(&self.pred, input, offset, len - offset, false);
        let j = scan_run(&self.pred, input, offset + s, len - offset - s, true);
        assert(sought_run(self.pred, input@, offset as int, s as int, j as int));
        let within = match self.m {
            Some(mm) => j <= mm,
            None => true,
        };
        if j >= self.n && within {
            let length = if j == 0 {
                0
            } else {
                s + j
            };
            ParseResult::successful(slice_subrange(input, offset + s, offset + s + j), length)
        } else {
            ParseResult::failed_with_uncommitted(ParseError::of_in_complete())
        }
    }
}

/// Copies the slice that a parser returns into a `Vec`.
pub struct ToVec<P> {
    pub parser: P,
}

impl<'a, I: Copy + 'a, P: ParserRunner<'a, I, Output = &'a [I]>> ParserRunner<'a, I> for ToVec<P> {
    type Output = Vec<I>;

    open spec fn inv(&self) -> bool {
        self.parser.inv()
    }

    /// The result of the parser, its slice copied.
    open spec fn accepts(&self, input: Seq<I>, offset: int, r: ParseResult<Vec<I>>) -> bool {
        exists|r0: ParseResult<&'a [I]>| #[trigger] self.parser.accepts(input, offset, r0) && match r0 {
            ParseResult::Success { value, length } => r matches ParseResult::Success { value: v, length: l }
                && v@ == value@ && l == length,
            ParseResult::Failure { .. } => passes_failure(r, r0),
        }
    }

    fn run(&self, input: &'a [I], offset: usize) -> (r: ParseResult<Vec<I>>) {
        let r0 = self.parser.run(input, offset);
        let ghost g = r0;
        match r0 {
            ParseResult::Success { value, length } => {
                let r = ParseResult::successful(slice_to_vec(value), length);
                assert(self.parser.accepts(input@, offset as int, g));
                r
            },
            ParseResult::Failure { error, committed_status } => {
                let r = ParseResult::failed(error, committed_status);
                assert(self.parser.accepts(input@, offset as int, g));
                r
            },
        }
    }
}

} // verus!
