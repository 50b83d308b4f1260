//! Tests on single elements: closures and the named classes of elements.
use vstd::prelude::*;
use super::element::{Element, code_is_space, code_is_multi_space, code_is_alpha, code_is_alpha_digit, code_is_digit, code_is_digit_1_9, code_is_hex_digit, code_is_oct_digit};
use crate::utils::set::ElementSet;

verus! {

/// A test on elements.
pub trait ElementPredicate<I> {
    /// Conditions under which the test may run.
    spec fn inv(&self) -> bool;

    /// `b` is a possible answer of the test on `e`.
    spec fn decides(&self, e: I, b: bool) -> bool;

    /// Runs the test on `e`.
    fn test(&self, e: &I) -> (b: bool)
        requires
            self.inv(),
        ensures
            self.decides(*e, b),
    ;
}

/// A closure used as a test.
pub struct FnPredicate<F>(pub F);

/// `f` may be called on every element.
pub open spec fn callable_on_all<I, F: Fn(&I) -> bool>(f: F) -> bool {
    forall|e: I| call_requires(f, (&e,))
}

impl<I, F: Fn(&I) -> bool> ElementPredicate<I> for FnPredicate<F> {
    open spec fn inv(&self) -> bool {
        callable_on_all::<I, F>(self.0)
    }

    open spec fn decides(&self, e: I, b: bool) -> bool {
        call_ensures(self.0, (&e,), b)
    }

    fn test(&self, e: &I) -> (b: bool) {
        (self.0)(e)
    }
}

/// The named classes of elements.
#[derive(Debug, Clone, Copy, PartialEq, Eq, Structural)]
pub enum ElementClass {
    /// Space or tab.
    Space,
    /// Space, tab, line feed or carriage return.
    MultiSpace,
    /// An ASCII letter.
    Alpha,
    /// An ASCII letter or digit.
    AlphaDigit,
    /// An ASCII decimal digit.
    Digit,
    /// An ASCII decimal digit other than `0`.
    Digit19,
    /// An ASCII hexadecimal digit.
    HexDigit,
    /// An octal digit: `0` to `8`.
    OctDigit,
}

/// Whether the element code `c` belongs to `class`.
pub open spec fn class_has(class: ElementClass, c: int) -> bool {
    match class {
        ElementClass::Space => code_is_space(c),
        ElementClass::MultiSpace => code_is_multi_space(c),
        ElementClass::Alpha => code_is_alpha(c),
        ElementClass::AlphaDigit => code_is_alpha_digit(c),
        ElementClass::Digit => code_is_digit(c),
        ElementClass::Digit19 => code_is_digit_1_9(c),
        ElementClass::HexDigit => code_is_hex_digit(c),
        ElementClass::OctDigit => code_is_oct_digit(c),
    }
}

impl<I: Element> ElementPredicate<I> for ElementClass {
    open spec fn inv(&self) -> bool {
        true
    }

    open spec fn decides(&self, e: I, b: bool) -> bool {
        b == class_has(*self, e.code())
    }

    fn test(&self, e: &I) -> (b: bool) {
        match self {
            ElementClass::Space => e.is_ascii_space(),
            ElementClass::MultiSpace => e.is_ascii_multi_space(),
            ElementClass::Alpha => e.is_ascii_alpha(),
            ElementClass::AlphaDigit => e.is_ascii_alpha_digit(),
            ElementClass::Digit => e.is_ascii_digit(),
            ElementClass::Digit19 => e.is_ascii_digit_1_9(),
            ElementClass::HexDigit => e.is_ascii_hex_digit(),
            ElementClass::OctDigit => e.is_ascii_oct_digit(),
        }
    }
}

/// A named class of elements, tested on elements of type `I`.
pub struct ClassOf<I> {
    /// The class.
    pub class: ElementClass,
    /// The type of the elements tested.
    pub element: core::marker::PhantomData<I>,
}

impl<I> ClassOf<I> {
    /// The class `class` on elements of type `I`.
    pub fn new(class: ElementClass) -> (c: Self)
        ensures
            c.class == class,
    {
        ClassOf { class, element: core::marker::PhantomData }
    }
}

impl<I: Element> ElementPredicate<I> for ClassOf<I> {
    open spec fn inv(&self) -> bool {
        true
    }

    open spec fn decides(&self, e: I, b: bool) -> bool {
        b == class_has(self.class, e.code())
    }

    fn test(&self, e: &I) -> (b: bool) {
        let b = <ElementClass as ElementPredicate<I>>::test(&self.class, e);
        b
    }
}

/// Every element of type `I`.
pub struct AnyElement<I>(pub core::marker::PhantomData<I>);

impl<I> ElementPredicate<I> for AnyElement<I> {
    open spec fn inv(&self) -> bool {
        true
    }

    open spec fn decides(&self, e: I, b: bool) -> bool {
        b
    }

    fn test(&self, e: &I) -> (b: bool) {
        true
    }
}

/// The elements of a set.
pub struct OneOf<'s, S: ?Sized>(pub &'s S);

impl<'s, I, S: ElementSet<I> + ?Sized> ElementPredicate<I> for OneOf<'s, S> {
    open spec fn inv(&self) -> bool {
        true
    }

    open spec fn decides(&self, e: I, b: bool) -> bool {
        b == self.0.has(e)
    }

    fn test(&self, e: &I) -> (b: bool) {
        self.0.contains(e)
    }
}

/// The elements outside a set.
pub struct NoneOf<'s, S: ?Sized>(pub &'s S);

impl<'s, I, S: ElementSet<I> + ?Sized> ElementPredicate<I> for NoneOf<'s, S> {
    open spec fn inv(&self) -> bool {
        true
    }

    open spec fn decides(&self, e: I, b: bool) -> bool {
        b == !self.0.has(e)
    }

    fn test(&self, e: &I) -> (b: bool) {
        !self.0.contains(e)
    }
}

/// The elements from `start` to `end`, both included, by code.
#[derive(Debug, Clone, Copy, PartialEq, Eq)]
pub struct InRange<I> {
    pub start: I,
    pub end: I,
}

impl<I: Element> ElementPredicate<I> for InRange<I> {
    open spec fn inv(&self) -> bool {
        true
    }

    open spec fn decides(&self, e: I, b: bool) -> bool {
        b == (self.start.code() <= e.code() && e.code() <= self.end.code())
    }

    fn test(&self, e: &I) -> (b: bool) {
        let c = e.to_code();
        self.start.to_code() <= c && c <= self.end.to_code()
    }
}

/// The elements from `start`, included, up to `end`, excluded, by code.
#[derive(Debug, Clone, Copy, PartialEq, Eq)]
pub struct FromUntil<I> {
    pub start: I,
    pub end: I,
}

impl<I: Element> ElementPredicate<I> for FromUntil<I> {
    open spec fn inv(&self) -> bool {
        true
    }

    open spec fn decides(&self, e: I, b: bool) -> bool {
        b == (self.start.code() <= e.code() && e.code() < self.end.code())
    }

    fn test(&self, e: &I) -> (b: bool) {
        let c = e.to_code();
        self.start.to_code() <= c && c < self.end.to_code()
    }
}

} // verus!
