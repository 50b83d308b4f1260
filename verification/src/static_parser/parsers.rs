//! `StaticParsersImpl`: the constructors of the slice parsers as associated
//! functions. `elm_pred`, `elm_hex_digit` and `elm_oct_digit` (and their `_ref`
//! forms) read one element; the other element-class parsers here read the
//! longest run of matching elements.
use vstd::prelude::*;
use super::element::Element;
use super::elements::{Elm, ElmPred, ElmPredRef, ElmRef, End};
use super::error::{CommittedStatus, ParseError};
use super::literal::{SeqOf, Tag, TagNoCase};
use super::predicate::{ClassOf, ElementClass, ElementPredicate, FnPredicate, FromUntil, InRange, NoneOf, OneOf};
use super::primitives::{Failed, FailedLazy, Lazy, Successful, SuccessfulLazy, Unit};
use super::result::{ParseResult, is_incomplete, is_mismatch};
use super::runner::ParserRunner;
use super::regex_parser::{RegexParser, new_regex_parser, regex_compiles};
use super::sequence::SurroundSlice;
use super::repeat::RepSep;
use super::transform::{Filtered, FlatMap, MapValue};
use crate::utils::range::{Bound, CountRange, RangeArgument};
use super::take::{Skip, Take, TakeTill0, TakeTill1, TakeWhile0, TakeWhile1, TakeWhileNM, ToVec};
use crate::utils::set::ElementSet;

verus! {

/// The constructors of the slice parsers.
pub struct StaticParsersImpl;

/// Reads the characters `abc`, giving them as a `&'static str`.
pub struct AbcParser;

impl<'a> ParserRunner<'a, char> for AbcParser {
    type Output = &'static str;

    open spec fn inv(&self) -> bool {
        true
    }

    /// With three characters left: `abc` consumed, or an uncommitted mismatch at the
    /// offset. With fewer: an uncommitted `Incomplete`.
    open spec fn accepts(&self, input: Seq<char>, offset: int, r: ParseResult<&'static str>) -> bool {
        if offset + 3 <= input.len() {
            if input.subrange(offset, offset + 3) == seq!['a', 'b', 'c'] {
                r matches ParseResult::Success { value, length } && value@ == "abc"@ && length == 3
            } else {
                is_mismatch(r, offset, 0, "expected 'abc'"@)
            }
        } else {
            is_incomplete(r)
        }
    }

    fn run(&self, input: &'a [char], offset: usize) -> (r: ParseResult<&'static str>) {
        let len = input.len();
        if len - offset >= 3 {
            let ghost s = input@.subrange(offset as int, offset + 3);
            if input[offset] == 'a' && input[offset + 1] == 'b' && input[offset + 2] == 'c' {
                assert(s =~= seq!['a', 'b', 'c']);
                let r = ParseResult::successful("abc", 3);
                assert(self.accepts(input@, offset as int, r));
                r
            } else {
                assert(s != seq!['a', 'b', 'c']) by {
                    if s == seq!['a', 'b', 'c'] {
                        assert(s[0] == 'a' && s[1] == 'b' && s[2] == 'c');
                    }
                }
                let r = ParseResult::failed_with_uncommitted(ParseError::of_mismatch(offset, 0, "expected 'abc'".to_owned()));
                assert(self.accepts(input@, offset as int, r));
                r
            }
        } else {
            ParseResult::failed_with_uncommitted(ParseError::of_in_complete())
        }
    }
}

impl StaticParsersImpl {
    /// A `String` with the text of `s`.
    pub fn lazy_static_str(s: &str) -> (r: String)
        ensures
            r@ == s@,
    {
        s.to_owned()
    }

    /// A parser of the characters `abc`.
    pub fn lazy_static_parser() -> (p: AbcParser) {
        AbcParser
    }

    /// Succeeds with `()`, consuming nothing.
    pub fn unit() -> (p: Unit) {
        Unit
    }

    /// Same as `unit`.
    pub fn empty() -> (p: Unit) {
        Unit
    }

    /// Succeeds only at the end of the input.
    pub fn end() -> (p: End) {
        End
    }

    /// Succeeds with a clone of `value`.
    pub fn successful<A: Clone>(value: A) -> (p: Successful<A>)
        ensures
            p.value == value,
    {
        Successful { value }
    }

    /// Succeeds with what `f` returns.
    pub fn successful_lazy<A, F: Fn() -> A>(f: F) -> (p: SuccessfulLazy<F>)
        ensures
            p.f == f,
    {
        SuccessfulLazy { f }
    }

    /// Fails with `error` and the status `committed`.
    pub fn failed<I, A>(error: ParseError, committed: CommittedStatus) -> (p: Failed<I, A>)
        ensures
            p.error == error,
            p.committed == committed,
    {
        Failed { error, committed, output: core::marker::PhantomData }
    }

    /// Fails with the error and status that `f` returns.
    pub fn failed_lazy<I, A, F: Fn() -> (ParseError, CommittedStatus)>(f: F) -> (p: FailedLazy<F, I, A>)
        ensures
            p.f == f,
    {
        FailedLazy { f, output: core::marker::PhantomData }
    }

    /// The next element, as a slice of one.
    pub fn elm_any_ref<I>() -> (p: Take<I>)
        ensures
            p.n == 1,
    {
        Take::new(1)
    }

    /// The next element, in a `Vec` of one.
    pub fn elm_any<I>() -> (p: ToVec<Take<I>>)
        ensures
            p.parser.n == 1,
    {
        ToVec { parser: Take::new(1) }
    }

    /// The element `element`, by reference.
    pub fn elm_ref<I: Element>(element: I) -> (p: ElmRef<I>)
        ensures
            p.element == element,
    {
        ElmRef { element }
    }

    /// The element `element`.
    pub fn elm<I: Element>(element: I) -> (p: Elm<I>)
        ensures
            p.element == element,
    {
        Elm { element }
    }

    /// The next element, by reference, when `f` accepts it.
    pub fn elm_pred_ref<'a, I: 'a, F: Fn(&I) -> bool>(f: F) -> (p: ElmPredRef<FnPredicate<F>>)
        ensures
            p.pred.0 == f,
            <ElmPredRef<FnPredicate<F>> as ParserRunner<'a, I>>::inv(&p) <==> (forall|e: I| call_requires(f, (&e,))),
    {
        ElmPredRef { pred: FnPredicate(f) }
    }

    /// The next element, when `f` accepts it.
    pub fn elm_pred<'a, I: Copy + 'a, F: Fn(&I) -> bool>(f: F) -> (p: ElmPred<FnPredicate<F>>)
        ensures
            p.pred.0 == f,
            <ElmPred<FnPredicate<F>> as ParserRunner<'a, I>>::inv(&p) <==> (forall|e: I| call_requires(f, (&e,))),
    {
        ElmPred { pred: FnPredicate(f) }
    }

    /// One hexadecimal digit, by reference.
    pub fn elm_hex_digit_ref<I: Element>() -> (p: ElmPredRef<ClassOf<I>>)
        ensures
            p.pred.class == ElementClass::HexDigit,
    {
        ElmPredRef { pred: ClassOf::new(ElementClass::HexDigit) }
    }

    /// One hexadecimal digit.
    pub fn elm_hex_digit<I: Element>() -> (p: ElmPred<ClassOf<I>>)
        ensures
            p.pred.class == ElementClass::HexDigit,
    {
        ElmPred { pred: ClassOf::new(ElementClass::HexDigit) }
    }

    /// One octal digit (`0` to `8`), by reference.
    pub fn elm_oct_digit_ref<I: Element>() -> (p: ElmPredRef<ClassOf<I>>)
        ensures
            p.pred.class == ElementClass::OctDigit,
    {
        ElmPredRef { pred: ClassOf::new(ElementClass::OctDigit) }
    }

    /// One octal digit (`0` to `8`).
    pub fn elm_oct_digit<I: Element>() -> (p: ElmPred<ClassOf<I>>)
        ensures
            p.pred.class == ElementClass::OctDigit,
    {
        ElmPred { pred: ClassOf::new(ElementClass::OctDigit) }
    }

    /// The longest run of elements of `set`.
    pub fn elm_ref_of<'s, S: ?Sized>(set: &'s S) -> (p: TakeWhile1<OneOf<'s, S>>)
        ensures
            p.pred.0 == set,
    {
        TakeWhile1 { pred: OneOf(set) }
    }

    /// The longest run of elements of `set`, in a `Vec`.
    pub fn elm_of<'s, S: ?Sized>(set: &'s S) -> (p: ToVec<TakeWhile1<OneOf<'s, S>>>)
        ensures
            p.parser.pred.0 == set,
    {
        ToVec { parser: TakeWhile1 { pred: OneOf(set) } }
    }

    /// The longest run of elements from `start` to `end`, both included.
    pub fn elm_ref_in<I: Element>(start: I, end: I) -> (p: TakeWhile1<InRange<I>>)
        ensures
            p.pred == (InRange { start, end }),
    {
        TakeWhile1 { pred: InRange { start, end } }
    }

    /// The longest run of elements from `start` to `end`, both included, in a `Vec`.
    pub fn elm_in<I: Element>(start: I, end: I) -> (p: ToVec<TakeWhile1<InRange<I>>>)
        ensures
            p.parser.pred == (InRange { start, end }),
    {
        ToVec { parser: TakeWhile1 { pred: InRange { start, end } } }
    }

    /// The longest run of elements from `start`, included, to `end`, excluded.
    pub fn elm_ref_from_until<I: Element>(start: I, end: I) -> (p: TakeWhile1<FromUntil<I>>)
        ensures
            p.pred == (FromUntil { start, end }),
    {
        TakeWhile1 { pred: FromUntil { start, end } }
    }

    /// The longest run of elements from `start`, included, to `end`, excluded, in a
    /// `Vec`.
    pub fn elm_from_until<I: Element>(start: I, end: I) -> (p: ToVec<TakeWhile1<FromUntil<I>>>)
        ensures
            p.parser.pred == (FromUntil { start, end }),
    {
        ToVec { parser: TakeWhile1 { pred: FromUntil { start, end } } }
    }

    /// The longest run of elements outside `set`.
    pub fn none_ref_of<'s, S: ?Sized>(set: &'s S) -> (p: TakeWhile1<NoneOf<'s, S>>)
        ensures
            p.pred.0 == set,
    {
        TakeWhile1 { pred: NoneOf(set) }
    }

    /// The longest run of elements outside `set`, in a `Vec`.
    pub fn none_of<'s, S: ?Sized>(set: &'s S) -> (p: ToVec<TakeWhile1<NoneOf<'s, S>>>)
        ensures
            p.parser.pred.0 == set,
    {
        ToVec { parser: TakeWhile1 { pred: NoneOf(set) } }
    }

    /// The longest run of spaces and tabs.
    pub fn elm_space_ref<I: Element>() -> (p: TakeWhile1<ClassOf<I>>)
        ensures
            p.pred.class == ElementClass::Space,
    {
        TakeWhile1 { pred: ClassOf::new(ElementClass::Space) }
    }

    /// The longest run of spaces and tabs, in a `Vec`.
    pub fn elm_space<I: Element>() -> (p: ToVec<TakeWhile1<ClassOf<I>>>)
        ensures
            p.parser.pred.class == ElementClass::Space,
    {
        ToVec { parser: TakeWhile1 { pred: ClassOf::new(ElementClass::Space) } }
    }

    /// The longest run of spaces, tabs, line feeds and carriage returns.
    pub fn elm_multi_space_ref<I: Element>() -> (p: TakeWhile1<ClassOf<I>>)
        ensures
            p.pred.class == ElementClass::MultiSpace,
    {
        TakeWhile1 { pred: ClassOf::new(ElementClass::MultiSpace) }
    }

    /// The longest run of spaces, tabs, line feeds and carriage returns, in a `Vec`.
    pub fn elm_multi_space<I: Element>() -> (p: ToVec<TakeWhile1<ClassOf<I>>>)
        ensures
            p.parser.pred.class == ElementClass::MultiSpace,
    {
        ToVec { parser: TakeWhile1 { pred: ClassOf::new(ElementClass::MultiSpace) } }
    }

    /// The longest run of ASCII letters.
    pub fn elm_alpha_ref<I: Element>() -> (p: TakeWhile1<ClassOf<I>>)
        ensures
            p.pred.class == ElementClass::Alpha,
    {
        TakeWhile1 { pred: ClassOf::new(ElementClass::Alpha) }
    }

    /// The longest run of ASCII letters, in a `Vec`.
    pub fn elm_alpha<I: Element>() -> (p: ToVec<TakeWhile1<ClassOf<I>>>)
        ensures
            p.parser.pred.class == ElementClass::Alpha,
    {
        ToVec { parser: TakeWhile1 { pred: ClassOf::new(ElementClass::Alpha) } }
    }

    /// The longest run of ASCII letters and digits.
    pub fn elm_alpha_digit_ref<I: Element>() -> (p: TakeWhile1<ClassOf<I>>)
        ensures
            p.pred.class == ElementClass::AlphaDigit,
    {
        TakeWhile1 { pred: ClassOf::new(ElementClass::AlphaDigit) }
    }

    /// The longest run of ASCII letters and digits, in a `Vec`.
    pub fn elm_alpha_digit<I: Element>() -> (p: ToVec<TakeWhile1<ClassOf<I>>>)
        ensures
            p.parser.pred.class == ElementClass::AlphaDigit,
    {
        ToVec { parser: TakeWhile1 { pred: ClassOf::new(ElementClass::AlphaDigit) } }
    }

    /// The longest run of decimal digits.
    pub fn elm_digit_ref<I: Element>() -> (p: TakeWhile1<ClassOf<I>>)
        ensures
            p.pred.class == ElementClass::Digit,
    {
        TakeWhile1 { pred: ClassOf::new(ElementClass::Digit) }
    }

    /// The longest run of decimal digits, in a `Vec`.
    pub fn elm_digit<I: Element>() -> (p: ToVec<TakeWhile1<ClassOf<I>>>)
        ensures
            p.parser.pred.class == ElementClass::Digit,
    {
        ToVec { parser: TakeWhile1 { pred: ClassOf::new(ElementClass::Digit) } }
    }

    /// The next `n` elements.
    pub fn take<I>(n: usize) -> (p: Take<I>)
        ensures
            p.n == n,
    {
        Take::new(n)
    }

    /// The longest run of elements that `f` accepts, possibly empty.
    pub fn take_while0<'a, I: 'a, F: Fn(&I) -> bool>(f: F) -> (p: TakeWhile0<FnPredicate<F>>)
        ensures
            p.pred.0 == f,
            <TakeWhile0<FnPredicate<F>> as ParserRunner<'a, I>>::inv(&p) <==> (forall|e: I| call_requires(f, (&e,))),
    {
        TakeWhile0 { pred: FnPredicate(f) }
    }

    /// The longest run of elements that `f` accepts, at least one.
    pub fn take_while1<'a, I: 'a, F: Fn(&I) -> bool>(f: F) -> (p: TakeWhile1<FnPredicate<F>>)
        ensures
            p.pred.0 == f,
            <TakeWhile1<FnPredicate<F>> as ParserRunner<'a, I>>::inv(&p) <==> (forall|e: I| call_requires(f, (&e,))),
    {
        TakeWhile1 { pred: FnPredicate(f) }
    }

    /// The elements from the offset on (it does not search ahead) that `f` accepts,
/// stopping after `m` of them even when the next one would pass; fails with
/// `Incomplete` when fewer than `n` pass or at the end of the input.
    pub fn take_while_n_m<'a, I: 'a, F: Fn(&I) -> bool>(n: usize, m: usize, f: F) -> (p: TakeWhileNM<FnPredicate<F>>)
        ensures
            p.n == n,
            p.m == m,
            p.pred.0 == f,
            <TakeWhileNM<FnPredicate<F>> as ParserRunner<'a, I>>::inv(&p) <==> (forall|e: I| call_requires(f, (&e,))),
    {
        TakeWhileNM { n, m, pred: FnPredicate(f) }
    }

    /// The elements up to and including the first that `f` accepts.
    pub fn take_till0<'a, I: 'a, F: Fn(&I) -> bool>(f: F) -> (p: TakeTill0<FnPredicate<F>>)
        ensures
            p.pred.0 == f,
            <TakeTill0<FnPredicate<F>> as ParserRunner<'a, I>>::inv(&p) <==> (forall|e: I| call_requires(f, (&e,))),
    {
        TakeTill0 { pred: FnPredicate(f) }
    }

    /// The elements up to and including the first that `f` accepts, which must
    /// exist and not be the first element.
    pub fn take_till1<'a, I: 'a, F: Fn(&I) -> bool>(f: F) -> (p: TakeTill1<FnPredicate<F>>)
        ensures
            p.pred.0 == f,
            <TakeTill1<FnPredicate<F>> as ParserRunner<'a, I>>::inv(&p) <==> (forall|e: I| call_requires(f, (&e,))),
            p.include_match,
    {
        TakeTill1 { pred: FnPredicate(f), include_match: true }
    }

    /// The elements of `elements`, in order.
    pub fn seq<I: Element>(elements: &[I]) -> (p: SeqOf<I>)
        ensures
            p.elements@ == elements@,
    {
        SeqOf { elements: vstd::slice::slice_to_vec(elements) }
    }

    /// The characters of `tag`.
    pub fn tag<I>(tag: &str) -> (p: Tag<I>)
        ensures
            p.text@ == tag@,
            p.chars@ == tag@,
    {
        Tag::new(tag)
    }

    /// The characters of `tag`, without regard to case.
    pub fn tag_no_case<I>(tag: &str) -> (p: TagNoCase<I>)
        ensures
            p.text@ == tag@,
            p.chars@ == tag@,
    {
        TagNoCase::new(tag)
    }

    /// A parser of a match of the regular expression `pattern` at the offset; the
    /// pattern must compile.
    pub fn regex<I>(pattern: &str) -> (p: RegexParser<I>)
        requires
            regex_compiles(pattern@),
        ensures
            p.pattern@ == pattern@,
    {
        new_regex_parser(pattern)
    }

    /// The parser that `f` builds, built on each parse.
    pub fn lazy<'a, I: 'a, P: ParserRunner<'a, I>, F: Fn() -> P>(f: F) -> (p: Lazy<F>)
        ensures
            p.f == f,
            <Lazy<F> as ParserRunner<'a, I>>::inv(&p) <==> (call_requires(f, ()) && forall|q: P|
                #[trigger] call_ensures(f, (), q) ==> q.inv()),
    {
        Lazy { f }
    }

    /// `lp`, `parser` and `rp` one after another, giving the elements `parser`
    /// consumed.
    pub fn surround<L, P, R>(lp: L, parser: P, rp: R) -> (p: SurroundSlice<L, P, R>)
        ensures
            p.left == lp,
            p.middle == parser,
            p.right == rp,
    {
        SurroundSlice { left: lp, middle: parser, right: rp }
    }

    /// Skips the next `n` elements.
    pub fn skip<I>(n: usize) -> (p: Skip<I>)
        ensures
            p.n == n,
    {
        Skip::new(n)
    }

    /// Runs `parser` on the whole of `input`: its value, or, on any failure, a
    /// custom error at offset `0` with the message `Parse failed`.
    pub fn parse<'a, I: 'a, P: ParserRunner<'a, I>>(parser: &P, input: &'a [I]) -> (r: Result<P::Output, ParseError>)
        requires
            parser.inv(),
        ensures
            exists|p: ParseResult<P::Output>| #[trigger] parser.accepts(input@, 0, p) && match p {
                ParseResult::Success { value, .. } => r == Ok::<P::Output, ParseError>(value),
                ParseResult::Failure { .. } => r matches Err(ParseError::Custom { offset, parent, message })
                    && offset == 0 && parent is None && message@ == "Parse failed"@,
            },
    {
        let p = parser.run(input, 0);
        let ghost g = p;
        proof {
            assert(parser.accepts(input@, 0, g));
        }
        match p {
            ParseResult::Success { value, .. } => Ok(value),
            ParseResult::Failure { .. } => Err(ParseError::of_custom(0, None, "Parse failed".to_owned())),
        }
    }

    /// Keeps a success whose value passes `f`; otherwise fails with
    /// `Filter predicate failed` at offset `0`.
    pub fn filter<'a, I: 'a, P: ParserRunner<'a, I>, F: Fn(&P::Output) -> bool>(parser: P, f: F) -> (p: Filtered<P, F>)
        ensures
            p.parser == parser,
            p.f == f,
            <Filtered<P, F> as ParserRunner<'a, I>>::inv(&p) <==> (parser.inv() && forall|v: P::Output|
                call_requires(f, (&v,))),
    {
        Filtered { parser, f }
    }

    /// Runs the parser that `f` builds from the value of `parser`, after it.
    pub fn flat_map<'a, I: 'a, P: ParserRunner<'a, I>, Q: ParserRunner<'a, I>, F: Fn(P::Output) -> Q>(
        parser: P,
        f: F,
    ) -> (p: FlatMap<P, F>)
        ensures
            p.parser == parser,
            p.f == f,
            <FlatMap<P, F> as ParserRunner<'a, I>>::inv(&p) <==> (parser.inv() && (forall|v: P::Output|
                call_requires(f, (v,))) && (forall|v: P::Output, q: Q| #[trigger] call_ensures(f, (v,), q) ==> q.inv())),
    {
        FlatMap { parser, f }
    }

    /// Maps the value of `parser` with `f`.
    pub fn map<P, F>(parser: P, f: F) -> (p: MapValue<P, F>)
        ensures
            p.parser == parser,
            p.f == f,
    {
        MapValue { parser, f }
    }

    /// Repeats `parser` as many times as `range` allows.
    pub fn repeat<P, R: RangeArgument>(parser: P, range: R) -> (p: RepSep<P, Unit>)
        ensures
            p.parser == parser,
            p.range == (CountRange { start: range.spec_start(), end: range.spec_end() }),
            p.separator is None,
    {
        RepSep { parser, range: CountRange { start: range.start(), end: range.end() }, separator: None }
    }

    /// `parser` zero or more times.
    pub fn many0<P>(parser: P) -> (p: RepSep<P, Unit>)
        ensures
            p.parser == parser,
            p.range == (CountRange { start: Bound::Included(0), end: Bound::Unbounded }),
            p.separator is None,
    {
        RepSep { parser, range: CountRange::from(0), separator: None }
    }

    /// `parser` one or more times.
    pub fn many1<P>(parser: P) -> (p: RepSep<P, Unit>)
        ensures
            p.parser == parser,
            p.range == (CountRange { start: Bound::Included(1), end: Bound::Unbounded }),
            p.separator is None,
    {
        RepSep { parser, range: CountRange::from(1), separator: None }
    }

    /// `parser` exactly `count` times.
    pub fn count<P>(parser: P, count: usize) -> (p: RepSep<P, Unit>)
        ensures
            p.parser == parser,
            p.range == (CountRange { start: Bound::Included(count), end: Bound::Included(count) }),
            p.separator is None,
    {
        RepSep { parser, range: CountRange::between_inclusive(count, count), separator: None }
    }

    /// `parser` zero or more times, with `sep` between items.
    pub fn many0_sep<P, S>(parser: P, sep: S) -> (p: RepSep<P, S>)
        ensures
            p.parser == parser,
            p.range == (CountRange { start: Bound::Included(0), end: Bound::Unbounded }),
            p.separator == Some(sep),
    {
        RepSep { parser, range: CountRange::from(0), separator: Some(sep) }
    }

    /// `parser` one or more times, with `sep` between items.
    pub fn many1_sep<P, S>(parser: P, sep: S) -> (p: RepSep<P, S>)
        ensures
            p.parser == parser,
            p.range == (CountRange { start: Bound::Included(1), end: Bound::Unbounded }),
            p.separator == Some(sep),
    {
        RepSep { parser, range: CountRange::from(1), separator: Some(sep) }
    }

    /// `parser` as many times as `range` allows, with `separator`, when given,
    /// between items.
    pub fn repeat_sep<P, S, R: RangeArgument>(parser: P, range: R, separator: Option<S>) -> (p: RepSep<P, S>)
        ensures
            p.parser == parser,
            p.range == (CountRange { start: range.spec_start(), end: range.spec_end() }),
            p.separator == separator,
    {
        RepSep { parser, range: CountRange { start: range.start(), end: range.end() }, separator }
    }
}

} // verus!
