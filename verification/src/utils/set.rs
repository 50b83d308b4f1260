//! Sets of elements that the element parsers test membership in.
use vstd::prelude::*;
use crate::static_parser::element::Element;
use crate::str_input::split_first_char;
use crate::utils::range::{inclusive_lower, inclusive_upper};
use vstd::utf8::{decode_utf8, valid_utf8};

verus! {

/// A set of elements.
pub trait ElementSet<T> {
    /// Whether `elem` is in the set.
    spec fn has(&self, elem: T) -> bool;

    /// Whether `elem` is in the set.
    fn contains(&self, elem: &T) -> (b: bool)
        ensures
            b == self.has(*elem),
    ;

    /// A text for display; `<set>` unless the set gives its own.
    fn to_str(&self) -> (s: &str)
        default_ensures
            s@ == "<set>"@,
    {
        proof {
            reveal_strlit("<set>");
        }
        "<set>"
    }
}

impl<T: Element> ElementSet<T> for [T] {
    open spec fn has(&self, elem: T) -> bool {
        self@.contains(elem)
    }

    fn contains(&self, elem: &T) -> (b: bool) {
        let mut i: usize = 0;
        while i < self.len()
            invariant
                i <= self@.len(),
                forall|j: int| 0 <= j < i ==> self@[j] != *elem,
            decreases self@.len() - i,
        {
            if self[i].same(elem) {
                assert(self@[i as int] == *elem);
                return true;
            }
            i = i + 1;
        }
        false
    }
}

impl ElementSet<char> for str {
    open spec fn has(&self, elem: char) -> bool {
        self@.contains(elem)
    }

    fn contains(&self, elem: &char) -> (b: bool) {
        let mut cur: &str = self;
        let ghost mut i: int = 0;
        proof {
            assert(self@.skip(0) =~= self@);
        }
        while !cur.is_empty()
            invariant
                0 <= i <= self@.len(),
                cur@ == self@.skip(i),
                forall|j: int| 0 <= j < i ==> self@[j] != *elem,
            decreases cur@.len(),
        {
            let (c, rest) = split_first_char(cur);
            if c == *elem {
                assert(self@[i] == *elem);
                return true;
            }
            proof {
                assert(rest@ =~= self@.skip(i + 1));
                i = i + 1;
            }
            cur = rest;
        }
        false
    }

    /// The text itself.
    fn to_str(&self) -> (s: &str)
        ensures
            s@ == self@,
    {
        self
    }
}

/// `..`: every element.
impl<T> ElementSet<T> for core::ops::RangeFull {
    open spec fn has(&self, elem: T) -> bool {
        true
    }

    fn contains(&self, elem: &T) -> (b: bool) {
        true
    }

    /// The text `..`.
    fn to_str(&self) -> &str
        returns
            "..",
    {
        ".."
    }
}

/// `start..end`: the elements whose code is at least `start`'s and below `end`'s.
impl<T: Element> ElementSet<T> for core::ops::Range<T> {
    open spec fn has(&self, elem: T) -> bool {
        self.start.code() <= elem.code() < self.end.code()
    }

    fn contains(&self, elem: &T) -> (b: bool) {
        let c = elem.to_code();
        self.start.to_code() <= c && c < self.end.to_code()
    }
}

/// `start..=end`: the elements whose code lies between `start`'s and `end`'s.
impl<T: Element> ElementSet<T> for core::ops::RangeInclusive<T> {
    open spec fn has(&self, elem: T) -> bool {
        self@.start.code() <= elem.code() <= self@.end.code()
    }

    fn contains(&self, elem: &T) -> (b: bool) {
        let c = elem.to_code();
        inclusive_lower(self).to_code() <= c && c <= inclusive_upper(self).to_code()
    }
}

/// `str::from_utf8`: the text that `b` encodes, when `b` is valid UTF-8.
#[verifier::external_body]
fn utf8_text(b: &[u8]) -> (r: Option<&str>)
    ensures
        r is Some <==> valid_utf8(b@),
        r matches Some(t) ==> t@ == decode_utf8(b@),
{
    core::str::from_utf8(b).ok()
}

/// The bytes of an array.
impl<const N: usize> ElementSet<u8> for [u8; N] {
    open spec fn has(&self, elem: u8) -> bool {
        self@.contains(elem)
    }

    fn contains(&self, elem: &u8) -> (b: bool) {
        let s: &[u8] = self.as_slice();
        <[u8] as ElementSet<u8>>::contains(s, elem)
    }

    /// The bytes as text when they are UTF-8, else `<byte array>`.
    fn to_str(&self) -> (s: &str)
        ensures
            s@ == (if valid_utf8(self@) { decode_utf8(self@) } else { "<byte array>"@ }),
    {
        match utf8_text(self.as_slice()) {
            Some(t) => t,
            None => "<byte array>",
        }
    }
}

/// The characters of an array.
impl<const N: usize> ElementSet<char> for [char; N] {
    open spec fn has(&self, elem: char) -> bool {
        self@.contains(elem)
    }

    fn contains(&self, elem: &char) -> (b: bool) {
        let s: &[char] = self.as_slice();
        <[char] as ElementSet<char>>::contains(s, elem)
    }

    /// The text `<char array>`.
    fn to_str(&self) -> (s: &str)
        ensures
            s@ == "<char array>"@,
    {
        "<char array>"
    }
}

} // verus!
