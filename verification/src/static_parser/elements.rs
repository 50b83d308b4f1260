//! Parsers of one element, and of the ends of the input.
use vstd::prelude::*;
use super::element::Element;
use super::error::{CommittedStatus, ParseError};
use super::predicate::ElementPredicate;
use super::result::{ParseResult, is_custom, is_incomplete, is_mismatch};
use super::runner::ParserRunner;
use super::take::end_of_input_message;
use crate::message::with_two_strs;

verus! {

/// The message of a failure where `found` stands instead of `expected`.
pub open spec fn expected_but_got_message<I: Element>(expected: I, found: I) -> Seq<char> {
    "expected: "@ + expected.debug_text() + ", but got: "@ + found.debug_text() + ""@
}

/// `expected: {expected:?}, but got: {found:?}`.
fn expected_but_got<I: Element>(expected: &I, found: &I) -> (s: String)
    ensures
        s@ == expected_but_got_message(*expected, *found),
{
    let e = expected.debug_string();
    let f = found.debug_string();
    with_two_strs("expected: ", e.as_str(), ", but got: ", f.as_str(), "")
}

/// How a parser of the element `element` ends at `offset`: a failure at the end
/// of the input or at another element, or a success on `element` itself.
pub open spec fn elm_outcome<I: Element, A>(element: I, input: Seq<I>, offset: int, r: ParseResult<A>) -> bool {
    if offset >= input.len() {
        is_mismatch(r, offset, 0, end_of_input_message())
    } else if input[offset] != element {
        is_mismatch(r, offset, 0, expected_but_got_message(element, input[offset]))
    } else {
        r is Success && r->length == 1
    }
}

/// Reads the element `element`, giving a reference to it in the input.
pub struct ElmRef<I> {
    pub element: I,
}

impl<'a, I: Element + 'a> ParserRunner<'a, I> for ElmRef<I> {
    type Output = &'a I;

    open spec fn inv(&self) -> bool {
        true
    }

    /// Succeeds on `element`, consuming it; otherwise an uncommitted mismatch at
    /// the offset, naming what was found.
    open spec fn accepts(&self, input: Seq<I>, offset: int, r: ParseResult<&'a I>) -> bool {
        &&& elm_outcome(self.element, input, offset, r)
        &&& r matches ParseResult::Success { value, .. } ==> *value == input[offset]
    }

    fn run(&self, input: &'a [I], offset: usize) -> (r: ParseResult<&'a I>) {
        if offset >= input.len() {
            return ParseResult::failed_with_uncommitted(
                ParseError::of_mismatch(offset, 0, "unexpected end of input".to_owned()),
            );
        }
        let e = &input[offset];
        if e.same(&self.element) {
            ParseResult::successful(e, 1)
        } else {
            ParseResult::failed_with_uncommitted(ParseError::of_mismatch(offset, 0, expected_but_got(&self.element, e)))
        }
    }
}

/// Reads the element `element`, giving a copy of it.
pub struct Elm<I> {
    pub element: I,
}

impl<'a, I: Element + 'a> ParserRunner<'a, I> for Elm<I> {
    type Output = I;

    open spec fn inv(&self) -> bool {
        true
    }

    /// Succeeds on `element`, consuming it; otherwise an uncommitted mismatch at
    /// the offset, naming what was found.
    open spec fn accepts(&self, input: Seq<I>, offset: int, r: ParseResult<I>) -> bool {
        &&& elm_outcome(self.element, input, offset, r)
        &&& r matches ParseResult::Success { value, .. } ==> value == input[offset]
    }

    fn run(&self, input: &'a [I], offset: usize) -> (r: ParseResult<I>) {
        if offset >= input.len() {
            return ParseResult::failed_with_uncommitted(
                ParseError::of_mismatch(offset, 0, "unexpected end of input".to_owned()),
            );
        }
        let e = input[offset];
        if e.same(&self.element) {
            ParseResult::successful(e, 1)
        } else {
            ParseResult::failed_with_uncommitted(ParseError::of_mismatch(offset, 0, expected_but_got(&self.element, &e)))
        }
    }
}

/// How a parser of one element that passes a test ends at `offset`.
pub open spec fn pred_outcome<I, P: ElementPredicate<I>, A>(p: P, input: Seq<I>, offset: int, r: ParseResult<A>) -> bool {
    if offset >= input.len() {
        is_incomplete(r)
    } else {
        ||| (p.decides(input[offset], false) && is_incomplete(r))
        ||| (p.decides(input[offset], true) && r is Success && r->length == 1)
    }
}

/// Reads one element that passes the test, giving a reference to it.
pub struct ElmPredRef<P> {
    pub pred: P,
}

impl<'a, I: 'a, P: ElementPredicate<I>> ParserRunner<'a, I> for ElmPredRef<P> {
    type Output = &'a I;

    open spec fn inv(&self) -> bool {
        self.pred.inv()
    }

    /// Succeeds on an element that passes the test, consuming it; otherwise (also
    /// at the end of the input) an uncommitted `Incomplete`.
    open spec fn accepts(&self, input: Seq<I>, offset: int, r: ParseResult<&'a I>) -> bool {
        &&& pred_outcome(self.pred, input, offset, r)
        &&& r matches ParseResult::Success { value, .. } ==> *value == input[offset]
    }

    fn run(&self, input: &'a [I], offset: usize) -> (r: ParseResult<&'a I>) {
        if offset >= input.len() {
            return ParseResult::failed_with_uncommitted(ParseError::of_in_complete());
        }
        let e = &input[offset];
        if self.pred.test(e) {
            ParseResult::successful(e, 1)
        } else {
            ParseResult::failed_with_uncommitted(ParseError::of_in_complete())
        }
    }
}

/// Reads one element that passes the test, giving a copy of it.
pub struct ElmPred<P> {
    pub pred: P,
}

impl<'a, I: Copy + 'a, P: ElementPredicate<I>> ParserRunner<'a, I> for ElmPred<P> {
    type Output = I;

    open spec fn inv(&self) -> bool {
        self.pred.inv()
    }

    /// Succeeds on an element that passes the test, consuming it; otherwise (also
    /// at the end of the input) an uncommitted `Incomplete`.
    open spec fn accepts(&self, input: Seq<I>, offset: int, r: ParseResult<I>) -> bool {
        &&& pred_outcome(self.pred, input, offset, r)
        &&& r matches ParseResult::Success { value, .. } ==> value == input[offset]
    }

    fn run(&self, input: &'a [I], offset: usize) -> (r: ParseResult<I>) {
        if offset >= input.len() {
            return ParseResult::failed_with_uncommitted(ParseError::of_in_complete());
        }
        let e = input[offset];
        if self.pred.test(&e) {
            ParseResult::successful(e, 1)
        } else {
            ParseResult::failed_with_uncommitted(ParseError::of_in_complete())
        }
    }
}

/// The message of `End` at an element.
pub open spec fn end_message<I: Element>(found: I) -> Seq<char> {
    "expected end of input, but got: "@ + found.display_text()
}

/// Succeeds, consuming nothing, only at the end of the input.
pub struct End;

impl<'a, I: Element + 'a> ParserRunner<'a, I> for End {
    type Output = ();

    open spec fn inv(&self) -> bool {
        true
    }

    /// At the end of the input: success consuming nothing. Otherwise an uncommitted
    /// mismatch naming the element found.
    open spec fn accepts(&self, input: Seq<I>, offset: int, r: ParseResult<()>) -> bool {
        if offset >= input.len() {
            r == (ParseResult::Success { value: (), length: 0 })
        } else {
            is_mismatch(r, offset, 0, end_message(input[offset]))
        }
    }

    fn run(&self, input: &'a [I], offset: usize) -> (r: ParseResult<()>) {
        if offset >= input.len() {
            ParseResult::successful((), 0)
        } else {
            let shown = input[offset].display_string();
            let mut msg = "expected end of input, but got: ".to_owned();
            crate::string_ops::push_str(&mut msg, shown.as_str());
            ParseResult::failed_with_uncommitted(ParseError::of_mismatch(offset, 0, msg))
        }
    }
}

/// Succeeds, consuming nothing, only at the start of the input.
pub struct Begin;

impl<'a, I: 'a> ParserRunner<'a, I> for Begin {
    type Output = ();

    open spec fn inv(&self) -> bool {
        true
    }

    /// At offset zero: success consuming nothing. Otherwise an uncommitted custom
    /// failure `expected beginning`.
    open spec fn accepts(&self, input: Seq<I>, offset: int, r: ParseResult<()>) -> bool {
        if offset == 0 {
            r == (ParseResult::Success { value: (), length: 0 })
        } else {
            is_custom(r, offset, "expected beginning"@)
        }
    }

    fn run(&self, input: &'a [I], offset: usize) -> (r: ParseResult<()>) {
        if offset == 0 {
            ParseResult::successful((), 0)
        } else {
            ParseResult::failed(
                ParseError::of_custom(offset, None, "expected beginning".to_owned()),
                CommittedStatus::Uncommitted,
            )
        }
    }
}

} // verus!
