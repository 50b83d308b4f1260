//! The elements that slice parsers read: bytes and characters.
use vstd::prelude::*;
use vstd::utf8::{char_is_scalar, char_u32_cast};
use crate::string_ops::{char_from_u32, push_char, push_str};

verus! {

/// ASCII space or tab.
pub open spec fn code_is_space(c: int) -> bool {
    c == 0x20 || c == 0x09
}

/// ASCII space, tab, line feed or carriage return.
pub open spec fn code_is_multi_space(c: int) -> bool {
    c == 0x20 || c == 0x09 || c == 0x0a || c == 0x0d
}

/// ASCII letter.
pub open spec fn code_is_alpha(c: int) -> bool {
    (0x41 <= c <= 0x5a) || (0x61 <= c <= 0x7a)
}

/// ASCII decimal digit.
pub open spec fn code_is_digit(c: int) -> bool {
    0x30 <= c <= 0x39
}

/// ASCII decimal digit other than `0`.
pub open spec fn code_is_digit_1_9(c: int) -> bool {
    0x31 <= c <= 0x39
}

/// ASCII letter or decimal digit.
pub open spec fn code_is_alpha_digit(c: int) -> bool {
    code_is_alpha(c) || code_is_digit(c)
}

/// ASCII hexadecimal digit.
pub open spec fn code_is_hex_digit(c: int) -> bool {
    code_is_digit(c) || (0x41 <= c <= 0x46) || (0x61 <= c <= 0x66)
}

/// Octal digits as this library counts them: `0` to `8`.
pub open spec fn code_is_oct_digit(c: int) -> bool {
    0x30 <= c <= 0x38
}

/// The decimal digit character for `d` (`0 <= d < 10`).
pub open spec fn digit_char(d: int) -> char {
    (d + 0x30) as char
}

/// The decimal text of a byte, as `{:?}` writes it.
pub open spec fn byte_decimal_text(b: u8) -> Seq<char> {
    let n = b as int;
    if n < 10 {
        seq![digit_char(n)]
    } else if n < 100 {
        seq![digit_char(n / 10), digit_char(n % 10)]
    } else {
        seq![digit_char(n / 100), digit_char((n / 10) % 10), digit_char(n % 10)]
    }
}

/// What `format!("{:?}", c)` writes for a character: the character quoted and
/// escaped by std's rules.
pub uninterp spec fn char_debug_text(c: char) -> Seq<char>;

/// The decimal digit character for `d`.
fn decimal_digit(d: u8) -> (c: char)
    requires
        d < 10,
    ensures
        c == digit_char(d as int),
{
    match char_from_u32(0x30u32 + d as u32) {
        Some(c) => c,
        None => '0',
    }
}

/// What `{:?}` writes for a byte: its decimal digits.
fn byte_debug(b: u8) -> (s: String)
    ensures
        s@ == byte_decimal_text(b),
{
    let mut s = String::new();
    if b >= 100 {
        push_char(&mut s, decimal_digit(b / 100));
    }
    if b >= 10 {
        push_char(&mut s, decimal_digit((b / 10) % 10));
    }
    push_char(&mut s, decimal_digit(b % 10));
    proof {
        if b >= 10 && b < 100 {
            assert((b / 10) % 10 == b / 10);
        }
    }
    s
}

/// `format!("{:?}", c)` for a character.
#[verifier::external_body]
fn char_debug(c: char) -> (s: String)
    ensures
        s@ == char_debug_text(c),
{
    format!("{:?}", c)
}

/// An element of a slice parser's input: a byte or a character, identified by
/// its code.
pub trait Element: Copy + Sized {
    /// The element's code: the byte value or the Unicode scalar value.
    spec fn code(&self) -> int;

    /// The element as a character (a byte is taken as Latin-1).
    spec fn view_char(&self) -> char;

    /// What `{:?}` writes for the element.
    spec fn debug_text(&self) -> Seq<char>;

    /// What `{}` writes for the element.
    spec fn display_text(&self) -> Seq<char>;

    /// Elements are equal exactly when their codes are.
    proof fn lemma_code(a: Self, b: Self)
        ensures
            0 <= a.code() <= 0x10FFFF,
            (a.code() == b.code()) == (a == b),
    ;

    /// The code.
    fn to_code(&self) -> (c: u32)
        ensures
            c == self.code(),
    ;

    /// The element as a character.
    fn to_char(&self) -> (c: char)
        ensures
            c == self.view_char(),
    ;

    /// `{:?}` of the element.
    fn debug_string(&self) -> (s: String)
        ensures
            s@ == self.debug_text(),
    ;

    /// `{}` of the element.
    fn display_string(&self) -> (s: String)
        ensures
            s@ == self.display_text(),
    ;

    /// Equality of elements.
    fn same(&self, other: &Self) -> (b: bool)
        ensures
            b == (*self == *other),
    {
        proof {
            Self::lemma_code(*self, *other);
        }
        self.to_code() == other.to_code()
    }

    /// Space or tab.
    fn is_ascii_space(&self) -> (b: bool)
        ensures
            b == code_is_space(self.code()),
    {
        let c = self.to_code();
        c == 0x20 || c == 0x09
    }

    /// Space, tab, line feed or carriage return.
    fn is_ascii_multi_space(&self) -> (b: bool)
        ensures
            b == code_is_multi_space(self.code()),
    {
        let c = self.to_code();
        c == 0x20 || c == 0x09 || c == 0x0a || c == 0x0d
    }

    /// An ASCII letter.
    fn is_ascii_alpha(&self) -> (b: bool)
        ensures
            b == code_is_alpha(self.code()),
    {
        let c = self.to_code();
        (0x41 <= c && c <= 0x5a) || (0x61 <= c && c <= 0x7a)
    }

    /// An ASCII decimal digit.
    fn is_ascii_digit(&self) -> (b: bool)
        ensures
            b == code_is_digit(self.code()),
    {
        let c = self.to_code();
        0x30 <= c && c <= 0x39
    }

    /// An ASCII decimal digit other than `0`.
    fn is_ascii_digit_1_9(&self) -> (b: bool)
        ensures
            b == code_is_digit_1_9(self.code()),
    {
        let c = self.to_code();
        0x31 <= c && c <= 0x39
    }

    /// An ASCII letter or decimal digit.
    fn is_ascii_alpha_digit(&self) -> (b: bool)
        ensures
            b == code_is_alpha_digit(self.code()),
    {
        self.is_ascii_alpha() || self.is_ascii_digit()
    }

    /// An ASCII hexadecimal digit.
    fn is_ascii_hex_digit(&self) -> (b: bool)
        ensures
            b == code_is_hex_digit(self.code()),
    {
        let c = self.to_code();
        (0x30 <= c && c <= 0x39) || (0x41 <= c && c <= 0x46) || (0x61 <= c && c <= 0x66)
    }

    /// An octal digit: `0` to `8`.
    fn is_ascii_oct_digit(&self) -> (b: bool)
        ensures
            b == code_is_oct_digit(self.code()),
    {
        let c = self.to_code();
        0x30 <= c && c <= 0x38
    }
}

/// The elements' `{:?}` texts separated by `, `.
pub open spec fn join_debug<I: Element>(s: Seq<I>) -> Seq<char>
    decreases s.len(),
{
    if s.len() == 0 {
        Seq::empty()
    } else if s.len() == 1 {
        s[0].debug_text()
    } else {
        join_debug(s.drop_last()) + ", "@ + s.last().debug_text()
    }
}

/// What `{:?}` writes for a slice or `Vec` of elements: `[a, b, c]`.
pub open spec fn list_debug_text<I: Element>(s: Seq<I>) -> Seq<char> {
    "["@ + join_debug(s) + "]"@
}

/// `{:?}` of a slice of elements.
pub fn list_debug_string<I: Element>(s: &[I]) -> (r: String)
    ensures
        r@ == list_debug_text(s@),
{
    let mut r = String::new();
    push_str(&mut r, "[");
    let mut i: usize = 0;
    proof {
        assert(s@.take(0) =~= Seq::<I>::empty());
    }
    while i < s.len()
        invariant
            i <= s@.len(),
            r@ == "["@ + join_debug(s@.take(i as int)),
        decreases s@.len() - i,
    {
        let d = s[i].debug_string();
        proof {
            assert(s@.take(i + 1).drop_last() =~= s@.take(i as int));
            assert(s@.take(i + 1).last() == s@[i as int]);
            if i == 0 {
                assert(s@.take(1) =~= seq![s@[0]]);
            }
        }
        if i > 0 {
            push_str(&mut r, ", ");
        }
        push_str(&mut r, d.as_str());
        proof {
            if i > 0 {
                assert(r@ =~= "["@ + join_debug(s@.take(i + 1)));
            } else {
                assert(r@ =~= "["@ + join_debug(s@.take(i + 1)));
            }
        }
        i = i + 1;
    }
    push_str(&mut r, "]");
    proof {
        assert(s@.take(s@.len() as int) =~= s@);
    }
    r
}

impl Element for u8 {
    open spec fn code(&self) -> int {
        *self as int
    }

    open spec fn view_char(&self) -> char {
        *self as char
    }

    open spec fn debug_text(&self) -> Seq<char> {
        byte_decimal_text(*self)
    }

    open spec fn display_text(&self) -> Seq<char> {
        byte_decimal_text(*self)
    }

    proof fn lemma_code(a: Self, b: Self) {
        assert(a.code() == a as int && b.code() == b as int);
    }

    fn to_code(&self) -> (c: u32) {
        proof {
            assert(self.code() == *self as int);
        }
        *self as u32
    }

    fn to_char(&self) -> (c: char) {
        proof {
            assert(self.view_char() == *self as char);
        }
        *self as char
    }

    fn debug_string(&self) -> (s: String) {
        proof {
            assert(self.debug_text() == byte_decimal_text(*self));
        }
        byte_debug(*self)
    }

    fn display_string(&self) -> (s: String) {
        proof {
            assert(self.display_text() == byte_decimal_text(*self));
        }
        byte_debug(*self)
    }
}

impl Element for char {
    open spec fn code(&self) -> int {
        (*self as u32) as int
    }

    open spec fn view_char(&self) -> char {
        *self
    }

    open spec fn debug_text(&self) -> Seq<char> {
        char_debug_text(*self)
    }

    open spec fn display_text(&self) -> Seq<char> {
        seq![*self]
    }

    proof fn lemma_code(a: Self, b: Self) {
        char_is_scalar(a);
        char_is_scalar(b);
        char_u32_cast(a, a as u32);
        char_u32_cast(b, b as u32);
        assert(a.code() == (a as u32) as int && b.code() == (b as u32) as int);
    }

    fn to_code(&self) -> (c: u32) {
        proof {
            char_is_scalar(*self);
            assert(self.code() == (*self as u32) as int);
        }
        *self as u32
    }

    fn to_char(&self) -> (c: char) {
        proof {
            assert(self.view_char() == *self);
        }
        *self
    }

    fn debug_string(&self) -> (s: String) {
        proof {
            assert(self.debug_text() == char_debug_text(*self));
        }
        char_debug(*self)
    }

    fn display_string(&self) -> (s: String) {
        let mut s = String::new();
        push_char(&mut s, *self);
        proof {
            assert(self.display_text() == seq![*self]);
            assert(s@ =~= seq![*self]);
        }
        s
    }
}

} // verus!
