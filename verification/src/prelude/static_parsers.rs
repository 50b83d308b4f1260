//! The slice parsers' constructors as free functions. The element parsers here
//! read exactly one element.
use vstd::prelude::*;
use crate::static_parser::element::Element;
use crate::static_parser::elements::{Begin, Elm, ElmPred, ElmPredRef, ElmRef, End};
use crate::static_parser::error::{CommittedStatus, ParseError};
use crate::static_parser::literal::{SeqOf, Tag, TagNoCase};
use crate::static_parser::parsers::{AbcParser, StaticParsersImpl};
use crate::static_parser::predicate::{ElementPredicate, AnyElement, ClassOf, ElementClass, FnPredicate, FromUntil, InRange, NoneOf, OneOf};
use crate::static_parser::primitives::{Failed, FailedLazy, Lazy, Successful, SuccessfulLazy, Unit};
use crate::static_parser::regex_parser::{RegexParser, regex_compiles, regex_is_valid};
use crate::static_parser::result::{ParseResult, is_mismatch};
use crate::static_parser::runner::ParserRunner;
use crate::static_parser::sequence::Surround;
use crate::static_parser::take::{Skip, Take, TakeTill0, TakeTill1, TakeWhile0, TakeWhile1, TakeWhileNM, end_of_input_message};

verus! {

/// Succeeds with `()`, consuming nothing.
pub fn unit() -> (p: Unit) {
    StaticParsersImpl::unit()
}

/// Same as `unit`.
pub fn empty() -> (p: Unit) {
    StaticParsersImpl::empty()
}

/// Succeeds, consuming nothing, only at the start of the input.
pub fn begin() -> (p: Begin) {
    Begin
}

/// Succeeds, consuming nothing, only at the end of the input.
pub fn end() -> (p: End) {
    StaticParsersImpl::end()
}

/// Succeeds with a clone of `value`, consuming nothing.
pub fn successful<A: Clone>(value: A) -> (p: Successful<A>)
    ensures
        p.value == value,
{
    StaticParsersImpl::successful(value)
}

/// Succeeds with what `f` returns, consuming nothing.
pub fn successful_lazy<A, F: Fn() -> A>(f: F) -> (p: SuccessfulLazy<F>)
    ensures
        p.f == f,
{
    StaticParsersImpl::successful_lazy(f)
}

/// Fails with `error` and the status `committed`.
pub fn failed<I, A>(error: ParseError, committed: CommittedStatus) -> (p: Failed<I, A>)
    ensures
        p.error == error,
        p.committed == committed,
{
    StaticParsersImpl::failed(error, committed)
}

/// Fails with `error`, committed.
pub fn failed_with_commit<I, A>(error: ParseError) -> (p: Failed<I, A>)
    ensures
        p.error == error,
        p.committed == CommittedStatus::Committed,
{
    StaticParsersImpl::failed(error, CommittedStatus::Committed)
}

/// Fails with `error`, uncommitted.
pub fn failed_with_uncommit<I, A>(error: ParseError) -> (p: Failed<I, A>)
    ensures
        p.error == error,
        p.committed == CommittedStatus::Uncommitted,
{
    StaticParsersImpl::failed(error, CommittedStatus::Uncommitted)
}

/// Fails with the error and status that `f` returns.
pub fn failed_lazy<I, A, F: Fn() -> (ParseError, CommittedStatus)>(f: F) -> (p: FailedLazy<F, I, A>)
    ensures
        p.f == f,
{
    StaticParsersImpl::failed_lazy(f)
}

/// Any one element, by reference.
pub fn elm_any_ref<I>() -> (p: ElmPredRef<AnyElement<I>>) {
    ElmPredRef { pred: AnyElement(core::marker::PhantomData) }
}

/// Any one element.
pub fn elm_any<I>() -> (p: ElmPred<AnyElement<I>>) {
    ElmPred { pred: AnyElement(core::marker::PhantomData) }
}

/// The element `element`, by reference.
pub fn elm_ref<I: Element>(element: I) -> (p: ElmRef<I>)
    ensures
        p.element == element,
{
    StaticParsersImpl::elm_ref(element)
}

/// The element `element`.
pub fn elm<I: Element>(element: I) -> (p: Elm<I>)
    ensures
        p.element == element,
{
    StaticParsersImpl::elm(element)
}

/// One element that `f` accepts, by reference.
pub fn elm_pred_ref<'a, I: 'a, F: Fn(&I) -> bool>(f: F) -> (p: ElmPredRef<FnPredicate<F>>)
    ensures
        p.pred.0 == f,
        <ElmPredRef<FnPredicate<F>> as ParserRunner<'a, I>>::inv(&p) <==> (forall|e: I| call_requires(f, (&e,))),
{
    ElmPredRef { pred: FnPredicate(f) }
}

/// One element that `f` accepts.
pub fn elm_pred<'a, I: Copy + 'a, F: Fn(&I) -> bool>(f: F) -> (p: ElmPred<FnPredicate<F>>)
    ensures
        p.pred.0 == f,
        <ElmPred<FnPredicate<F>> as ParserRunner<'a, I>>::inv(&p) <==> (forall|e: I| call_requires(f, (&e,))),
{
    ElmPred { pred: FnPredicate(f) }
}

/// One element of `set`, by reference.
pub fn elm_ref_of<'s, S: ?Sized>(set: &'s S) -> (p: ElmPredRef<OneOf<'s, S>>)
    ensures
        p.pred.0 == set,
{
    ElmPredRef { pred: OneOf(set) }
}

/// One element of `set`.
pub fn elm_of<'s, S: ?Sized>(set: &'s S) -> (p: ElmPred<OneOf<'s, S>>)
    ensures
        p.pred.0 == set,
{
    ElmPred { pred: OneOf(set) }
}

/// One element from `start` to `end`, both included, by reference.
pub fn elm_in_ref<I: Element>(start: I, end: I) -> (p: ElmPredRef<InRange<I>>)
    ensures
        p.pred == (InRange { start, end }),
{
    ElmPredRef { pred: InRange { start, end } }
}

/// One element from `start` to `end`, both included.
pub fn elm_in<I: Element>(start: I, end: I) -> (p: ElmPred<InRange<I>>)
    ensures
        p.pred == (InRange { start, end }),
{
    ElmPred { pred: InRange { start, end } }
}

/// One element from `start`, included, to `end`, excluded, by reference.
pub fn elm_from_until_ref<I: Element>(start: I, end: I) -> (p: ElmPredRef<FromUntil<I>>)
    ensures
        p.pred == (FromUntil { start, end }),
{
    ElmPredRef { pred: FromUntil { start, end } }
}

/// One element from `start`, included, to `end`, excluded.
pub fn elm_from_until<I: Element>(start: I, end: I) -> (p: ElmPred<FromUntil<I>>)
    ensures
        p.pred == (FromUntil { start, end }),
{
    ElmPred { pred: FromUntil { start, end } }
}

/// One element outside `set`, by reference.
pub fn none_ref_of<'s, S: ?Sized>(set: &'s S) -> (p: ElmPredRef<NoneOf<'s, S>>)
    ensures
        p.pred.0 == set,
{
    ElmPredRef { pred: NoneOf(set) }
}

/// One element outside `set`.
pub fn none_of<'s, S: ?Sized>(set: &'s S) -> (p: ElmPred<NoneOf<'s, S>>)
    ensures
        p.pred.0 == set,
{
    ElmPred { pred: NoneOf(set) }
}

/// One space or tab
pub fn elm_space_ref<I: Element>() -> (p: ElmPredRef<ClassOf<I>>)
    ensures
        p.pred.class == ElementClass::Space,
{
    ElmPredRef { pred: ClassOf::new(ElementClass::Space) }
}

/// One space or tab, by value.
pub fn elm_space<I: Element>() -> (p: ElmPred<ClassOf<I>>)
    ensures
        p.pred.class == ElementClass::Space,
{
    ElmPred { pred: ClassOf::new(ElementClass::Space) }
}

/// One space, tab, line feed or carriage return
pub fn elm_multi_space_ref<I: Element>() -> (p: ElmPredRef<ClassOf<I>>)
    ensures
        p.pred.class == ElementClass::MultiSpace,
{
    ElmPredRef { pred: ClassOf::new(ElementClass::MultiSpace) }
}

/// One space, tab, line feed or carriage return, by value.
pub fn elm_multi_space<I: Element>() -> (p: ElmPred<ClassOf<I>>)
    ensures
        p.pred.class == ElementClass::MultiSpace,
{
    ElmPred { pred: ClassOf::new(ElementClass::MultiSpace) }
}

/// One ASCII letter
pub fn elm_alpha_ref<I: Element>() -> (p: ElmPredRef<ClassOf<I>>)
    ensures
        p.pred.class == ElementClass::Alpha,
{
    ElmPredRef { pred: ClassOf::new(ElementClass::Alpha) }
}

/// One ASCII letter, by value.
pub fn elm_alpha<I: Element>() -> (p: ElmPred<ClassOf<I>>)
    ensures
        p.pred.class == ElementClass::Alpha,
{
    ElmPred { pred: ClassOf::new(ElementClass::Alpha) }
}

/// One ASCII letter or digit
pub fn elm_alpha_digit_ref<I: Element>() -> (p: ElmPredRef<ClassOf<I>>)
    ensures
        p.pred.class == ElementClass::AlphaDigit,
{
    ElmPredRef { pred: ClassOf::new(ElementClass::AlphaDigit) }
}

/// One ASCII letter or digit, by value.
pub fn elm_alpha_digit<I: Element>() -> (p: ElmPred<ClassOf<I>>)
    ensures
        p.pred.class == ElementClass::AlphaDigit,
{
    ElmPred { pred: ClassOf::new(ElementClass::AlphaDigit) }
}

/// One decimal digit
pub fn elm_digit_ref<I: Element>() -> (p: ElmPredRef<ClassOf<I>>)
    ensures
        p.pred.class == ElementClass::Digit,
{
    ElmPredRef { pred: ClassOf::new(ElementClass::Digit) }
}

/// One decimal digit, by value.
pub fn elm_digit<I: Element>() -> (p: ElmPred<ClassOf<I>>)
    ensures
        p.pred.class == ElementClass::Digit,
{
    ElmPred { pred: ClassOf::new(ElementClass::Digit) }
}

/// One decimal digit other than `0`
pub fn elm_digit_1_9_ref<I: Element>() -> (p: ElmPredRef<ClassOf<I>>)
    ensures
        p.pred.class == ElementClass::Digit19,
{
    ElmPredRef { pred: ClassOf::new(ElementClass::Digit19) }
}

/// One decimal digit other than `0`, by value.
pub fn elm_digit_1_9<I: Element>() -> (p: ElmPred<ClassOf<I>>)
    ensures
        p.pred.class == ElementClass::Digit19,
{
    ElmPred { pred: ClassOf::new(ElementClass::Digit19) }
}

/// One hexadecimal digit
pub fn elm_hex_digit_ref<I: Element>() -> (p: ElmPredRef<ClassOf<I>>)
    ensures
        p.pred.class == ElementClass::HexDigit,
{
    ElmPredRef { pred: ClassOf::new(ElementClass::HexDigit) }
}

/// One hexadecimal digit, by value.
pub fn elm_hex_digit<I: Element>() -> (p: ElmPred<ClassOf<I>>)
    ensures
        p.pred.class == ElementClass::HexDigit,
{
    ElmPred { pred: ClassOf::new(ElementClass::HexDigit) }
}

/// One octal digit (`0` to `8`)
pub fn elm_oct_digit_ref<I: Element>() -> (p: ElmPredRef<ClassOf<I>>)
    ensures
        p.pred.class == ElementClass::OctDigit,
{
    ElmPredRef { pred: ClassOf::new(ElementClass::OctDigit) }
}

/// One octal digit (`0` to `8`), by value.
pub fn elm_oct_digit<I: Element>() -> (p: ElmPred<ClassOf<I>>)
    ensures
        p.pred.class == ElementClass::OctDigit,
{
    ElmPred { pred: ClassOf::new(ElementClass::OctDigit) }
}

/// The elements of `elements`, in order.
pub fn seq<I: Element>(elements: &[I]) -> (p: SeqOf<I>)
    ensures
        p.elements@ == elements@,
{
    StaticParsersImpl::seq(elements)
}

/// The characters of `tag`.
pub fn tag(s: &str) -> (p: Tag<char>)
    ensures
        p.text@ == s@,
        p.chars@ == s@,
{
    StaticParsersImpl::tag(s)
}

/// The characters of `tag`, without regard to case.
pub fn tag_no_case(s: &str) -> (p: TagNoCase<char>)
    ensures
        p.text@ == s@,
        p.chars@ == s@,
{
    StaticParsersImpl::tag_no_case(s)
}

/// A parser of a match of the regular expression `pattern` at the offset; the
/// pattern must compile.
pub fn regex(pattern: &str) -> (p: RegexParser<char>)
    requires
        regex_compiles(pattern@),
    ensures
        p.pattern@ == pattern@,
{
    StaticParsersImpl::regex(pattern)
}

/// A parser of a match of the regular expression `pattern`, or `None` when the
/// pattern does not compile.
pub fn try_regex(pattern: &str) -> (p: Option<RegexParser<char>>)
    ensures
        p is Some == regex_compiles(pattern@),
        p matches Some(q) ==> q.pattern@ == pattern@,
{
    if regex_is_valid(pattern) {
        Some(regex(pattern))
    } else {
        None
    }
}

/// The next `n` elements.
pub fn take<I>(n: usize) -> (p: Take<I>)
    ensures
        p.n == n,
{
    StaticParsersImpl::take(n)
}

/// The longest run of elements that `f` accepts, possibly empty.
pub fn take_while0<'a, I: 'a, F: Fn(&I) -> bool>(f: F) -> (p: TakeWhile0<FnPredicate<F>>)
    ensures
        p.pred.0 == f,
        <TakeWhile0<FnPredicate<F>> as ParserRunner<'a, I>>::inv(&p) <==> (forall|e: I| call_requires(f, (&e,))),
{
    StaticParsersImpl::take_while0(f)
}

/// The longest run of elements that `f` accepts, at least one.
pub fn take_while1<'a, I: 'a, F: Fn(&I) -> bool>(f: F) -> (p: TakeWhile1<FnPredicate<F>>)
    ensures
        p.pred.0 == f,
        <TakeWhile1<FnPredicate<F>> as ParserRunner<'a, I>>::inv(&p) <==> (forall|e: I| call_requires(f, (&e,))),
{
    StaticParsersImpl::take_while1(f)
}

/// The elements from the offset on (it does not search ahead) that `f` accepts,
/// stopping after `m` of them even when the next one would pass; fails with
/// `Incomplete` when fewer than `n` pass or at the end of the input.
pub fn take_while_n_m<'a, I: 'a, F: Fn(&I) -> bool>(n: usize, m: usize, f: F) -> (p: TakeWhileNM<FnPredicate<F>>)
    ensures
        p.n == n,
        p.m == m,
        p.pred.0 == f,
        <TakeWhileNM<FnPredicate<F>> as ParserRunner<'a, I>>::inv(&p) <==> (forall|e: I| call_requires(f, (&e,))),
{
    StaticParsersImpl::take_while_n_m(n, m, f)
}

/// The elements up to and including the first that `f` accepts, or all the rest.
pub fn take_till0<'a, I: 'a, F: Fn(&I) -> bool>(f: F) -> (p: TakeTill0<FnPredicate<F>>)
    ensures
        p.pred.0 == f,
        <TakeTill0<FnPredicate<F>> as ParserRunner<'a, I>>::inv(&p) <==> (forall|e: I| call_requires(f, (&e,))),
{
    StaticParsersImpl::take_till0(f)
}

/// The elements up to and including the first that `f` accepts, which must exist
/// and not be the first element.
pub fn take_till1<'a, I: 'a, F: Fn(&I) -> bool>(f: F) -> (p: TakeTill1<FnPredicate<F>>)
    ensures
        p.pred.0 == f,
        <TakeTill1<FnPredicate<F>> as ParserRunner<'a, I>>::inv(&p) <==> (forall|e: I| call_requires(f, (&e,))),
        p.include_match,
{
    TakeTill1 { pred: FnPredicate(f), include_match: true }
}

/// Skips the next `n` elements.
pub fn skip<I>(n: usize) -> (p: Skip<I>)
    ensures
        p.n == n,
{
    StaticParsersImpl::skip(n)
}

/// `lp`, `parser` and `rp` one after another, giving the value of `parser`.
pub fn surround<L, P, R>(lp: L, parser: P, rp: R) -> (p: Surround<L, P, R>)
    ensures
        p.left == lp,
        p.middle == parser,
        p.right == rp,
{
    Surround { left: lp, middle: parser, right: rp }
}

/// The parser that `f` builds, built on each parse.
pub fn lazy<'a, I: 'a, P: ParserRunner<'a, I>, F: Fn() -> P>(f: F) -> (p: Lazy<F>)
    ensures
        p.f == f,
        <Lazy<F> as ParserRunner<'a, I>>::inv(&p) <==> (call_requires(f, ()) && forall|q: P|
            #[trigger] call_ensures(f, (), q) ==> q.inv()),
{
    StaticParsersImpl::lazy(f)
}

/// A `String` with the text of `s`.
pub fn lazy_static_str(s: &str) -> (r: String)
    ensures
        r@ == s@,
{
    StaticParsersImpl::lazy_static_str(s)
}

/// Reads the characters `abc`, giving them as a `String`.
pub struct AbcStringParser;

impl<'a> ParserRunner<'a, char> for AbcStringParser {
    type Output = String;

    open spec fn inv(&self) -> bool {
        true
    }

    /// With three characters left: `abc` consumed, or an uncommitted mismatch at the
    /// offset. With fewer: an uncommitted mismatch at the end of the input.
    open spec fn accepts(&self, input: Seq<char>, offset: int, r: ParseResult<String>) -> bool {
        if offset + 3 <= input.len() {
            if input.subrange(offset, offset + 3) == seq!['a', 'b', 'c'] {
                r matches ParseResult::Success { value, length } && value@ == "abc"@ && length == 3
            } else {
                is_mismatch(r, offset, 0, "expected 'abc'"@)
            }
        } else {
            is_mismatch(r, offset, 0, end_of_input_message())
        }
    }

    fn run(&self, input: &'a [char], offset: usize) -> (r: ParseResult<String>) {
        let len = input.len();
        if len - offset >= 3 {
            let r0 = AbcParser.run(input, offset);
            match r0 {
                ParseResult::Success { value, length } => ParseResult::successful(value.to_owned(), length),
                ParseResult::Failure { error, committed_status } => ParseResult::failed(error, committed_status),
            }
        } else {
            ParseResult::failed_with_uncommitted(
                ParseError::of_mismatch(offset, 0, "unexpected end of input".to_owned()),
            )
        }
    }
}

/// A parser of the characters `abc` that gives them as a `String`.
pub fn lazy_static_parser() -> (p: AbcStringParser) {
    AbcStringParser
}

} // verus!
