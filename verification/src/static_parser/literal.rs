//! Parsers of fixed sequences: elements, tags, and tags without case.
use vstd::prelude::*;
use vstd::slice::{slice_subrange, slice_to_vec};
use super::element::{Element, list_debug_string, list_debug_text};
use super::error::ParseError;
use super::result::{ParseResult, is_mismatch};
use super::runner::ParserRunner;
use super::take::end_of_input_message;
use crate::str_input::split_first_char;
use crate::string_ops::{push_char, push_str};

verus! {

/// The message of a mismatch of `expected` against `found`.
pub open spec fn seq_mismatch_message<I: Element>(expected: Seq<I>, found: Seq<I>) -> Seq<char> {
    "expected: "@ + list_debug_text(expected) + ", but got: "@ + list_debug_text(found)
}

/// Reads the elements of `elements`, in order.
pub struct SeqOf<I> {
    pub elements: Vec<I>,
}

impl<'a, I: Element + 'a> ParserRunner<'a, I> for SeqOf<I> {
    type Output = Vec<I>;

    open spec fn inv(&self) -> bool {
        true
    }

    /// When the input holds `elements` at the offset: a copy of them, consuming
    /// them. Otherwise an uncommitted mismatch at the offset (at the end of the
    /// input, or naming what was found).
    open spec fn accepts(&self, input: Seq<I>, offset: int, r: ParseResult<Vec<I>>) -> bool {
        let n = self.elements@.len();
        if offset + n > input.len() {
            is_mismatch(r, offset, 0, end_of_input_message())
        } else if input.subrange(offset, offset + n) != self.elements@ {
            is_mismatch(r, offset, 0, seq_mismatch_message(self.elements@, input.subrange(offset, offset + n)))
        } else {
            r matches ParseResult::Success { value, length } && value@ == self.elements@ && length == n
        }
    }

    fn run(&self, input: &'a [I], offset: usize) -> (r: ParseResult<Vec<I>>) {
        let n = self.elements.len();
        let len = input.len();
        if n > len - offset {
            return ParseResult::failed_with_uncommitted(
                ParseError::of_mismatch(offset, 0, "unexpected end of input".to_owned()),
            );
        }
        let mut i: usize = 0;
        while i < n
            invariant
                n == self.elements@.len(),
                len == input@.len(),
                offset + n <= len,
                i <= n,
                forall|k: int| 0 <= k < i ==> input@[offset + k] == self.elements@[k],
            decreases n - i,
        {
            if !input[offset + i].same(&self.elements[i]) {
                let found = slice_subrange(input, offset, offset + n);
                proof {
                    assert(input@.subrange(offset as int, offset + n)[i as int] != self.elements@[i as int]);
                }
                let mut msg = "expected: ".to_owned();
                let e = list_debug_string(self.elements.as_slice());
                push_str(&mut msg, e.as_str());
                push_str(&mut msg, ", but got: ");
                let f = list_debug_string(found);
                push_str(&mut msg, f.as_str());
                return ParseResult::failed_with_uncommitted(ParseError::of_mismatch(offset, 0, msg));
            }
            i = i + 1;
        }
        proof {
            assert(input@.subrange(offset as int, offset + n) =~= self.elements@);
        }
        ParseResult::successful(slice_to_vec(self.elements.as_slice()), n)
    }
}

/// The characters of `s`, in a `Vec`.
pub fn chars_of(s: &str) -> (v: Vec<char>)
    ensures
        v@ == s@,
{
    let mut v: Vec<char> = Vec::new();
    let mut cur = s;
    let ghost mut i: int = 0;
    proof {
        assert(s@.skip(0) =~= s@);
    }
    while !cur.is_empty()
        invariant
            0 <= i <= s@.len(),
            cur@ == s@.skip(i),
            v@ == s@.take(i),
        decreases cur@.len(),
    {
        let (c, rest) = split_first_char(cur);
        v.push(c);
        proof {
            assert(v@ =~= s@.take(i + 1));
            assert(rest@ =~= s@.skip(i + 1));
            i = i + 1;
        }
        cur = rest;
    }
    proof {
        assert(s@.take(i) =~= s@);
    }
    v
}

/// The characters of a sequence of elements.
pub open spec fn chars_of_elements<I: Element>(s: Seq<I>) -> Seq<char> {
    s.map_values(|e: I| e.view_char())
}

/// Reads the characters of `text`, each matched by an element's character.
pub struct Tag<I> {
    pub text: String,
    pub chars: Vec<char>,
    pub element: core::marker::PhantomData<I>,
}

impl<I> Tag<I> {
    /// The tag `s`.
    pub fn new(s: &str) -> (t: Tag<I>)
        ensures
            t.text@ == s@,
            t.chars@ == s@,
    {
        Tag { text: s.to_owned(), chars: chars_of(s), element: core::marker::PhantomData }
    }
}

/// The message of a tag mismatch.
pub open spec fn tag_mismatch_message<I: Element>(tag: Seq<char>, found: Seq<I>) -> Seq<char> {
    "expected: "@ + tag + ", but got: "@ + list_debug_text(found)
}

impl<'a, I: Element + 'a> ParserRunner<'a, I> for Tag<I> {
    type Output = String;

    open spec fn inv(&self) -> bool {
        self.chars@ == self.text@
    }

    /// When the elements at the offset have the tag's characters: the tag, consuming
    /// as many elements as it has characters. Otherwise an uncommitted mismatch at
    /// the offset (at the end of the input, or naming what was found).
    open spec fn accepts(&self, input: Seq<I>, offset: int, r: ParseResult<String>) -> bool {
        let n = self.text@.len();
        if offset + n > input.len() {
            is_mismatch(r, offset, 0, end_of_input_message())
        } else if chars_of_elements(input.subrange(offset, offset + n)) != self.text@ {
            is_mismatch(r, offset, 0, tag_mismatch_message(self.text@, input.subrange(offset, offset + n)))
        } else {
            r matches ParseResult::Success { value, length } && value@ == self.text@ && length == n
        }
    }

    fn run(&self, input: &'a [I], offset: usize) -> (r: ParseResult<String>) {
        let n = self.chars.len();
        let len = input.len();
        if n > len - offset {
            return ParseResult::failed_with_uncommitted(
                ParseError::of_mismatch(offset, 0, "unexpected end of input".to_owned()),
            );
        }
        let ghost found = input@.subrange(offset as int, offset + n);
        let mut i: usize = 0;
        while i < n
            invariant
                n == self.chars@.len(),
                self.chars@ == self.text@,
                len == input@.len(),
                offset + n <= len,
                found == input@.subrange(offset as int, offset + n),
                i <= n,
                forall|k: int| 0 <= k < i ==> input@[offset + k].view_char() == self.chars@[k],
            decreases n - i,
        {
            if input[offset + i].to_char() != self.chars[i] {
                proof {
                    assert(chars_of_elements(found)[i as int] != self.text@[i as int]);
                }
                let f = list_debug_string(slice_subrange(input, offset, offset + n));
                let mut msg = "expected: ".to_owned();
                push_str(&mut msg, self.text.as_str());
                push_str(&mut msg, ", but got: ");
                push_str(&mut msg, f.as_str());
                return ParseResult::failed_with_uncommitted(ParseError::of_mismatch(offset, 0, msg));
            }
            i = i + 1;
        }
        proof {
            assert(chars_of_elements(found) =~= self.text@);
        }
        ParseResult::successful(self.text.clone(), n)
    }
}

/// The first character of the lowercase form of `c` (`char::to_lowercase`),
/// by Unicode's case mappings.
pub uninterp spec fn lowercase_first(c: char) -> char;

/// `c.to_lowercase().next()`, which always holds a character. As std documents,
/// an ASCII capital letter becomes its small letter and any other ASCII character
/// stays as it is.
#[verifier::external_body]
fn to_lowercase_first(c: char) -> (r: char)
    ensures
        r == lowercase_first(c),
        'A' <= c <= 'Z' ==> r == ((c as u32) + 32) as char,
        (c as u32) < 0x80 && !('A' <= c <= 'Z') ==> r == c,
{
    c.to_lowercase().next().unwrap_or(c)
}

/// The lowercase characters of a sequence of characters.
pub open spec fn lowercase_chars(s: Seq<char>) -> Seq<char> {
    s.map_values(|c: char| lowercase_first(c))
}

/// Reads the characters of `text` without regard to case; gives the matched
/// elements' characters in lowercase.
pub struct TagNoCase<I> {
    pub text: String,
    pub chars: Vec<char>,
    pub element: core::marker::PhantomData<I>,
}

impl<I> TagNoCase<I> {
    /// The tag `s`, matched without regard to case.
    pub fn new(s: &str) -> (t: TagNoCase<I>)
        ensures
            t.text@ == s@,
            t.chars@ == s@,
    {
        TagNoCase { text: s.to_owned(), chars: chars_of(s), element: core::marker::PhantomData }
    }
}

/// The message of a mismatch without regard to case.
pub open spec fn tag_no_case_mismatch_message<I: Element>(tag: Seq<char>, found: Seq<I>) -> Seq<char> {
    "expected: "@ + tag + " (case insensitive), but got: "@ + list_debug_text(found)
}

impl<'a, I: Element + 'a> ParserRunner<'a, I> for TagNoCase<I> {
    type Output = String;

    open spec fn inv(&self) -> bool {
        self.chars@ == self.text@
    }

    /// When the elements at the offset have the tag's characters in lowercase: those
    /// characters in lowercase, consuming as many elements as the tag has
    /// characters. Otherwise an uncommitted mismatch at the offset.
    open spec fn accepts(&self, input: Seq<I>, offset: int, r: ParseResult<String>) -> bool {
        let n = self.text@.len();
        if offset + n > input.len() {
            is_mismatch(r, offset, 0, end_of_input_message())
        } else {
            let found = chars_of_elements(input.subrange(offset, offset + n));
            if lowercase_chars(found) != lowercase_chars(self.text@) {
                is_mismatch(
                    r,
                    offset,
                    0,
                    tag_no_case_mismatch_message(self.text@, input.subrange(offset, offset + n)),
                )
            } else {
                r matches ParseResult::Success { value, length } && value@ == lowercase_chars(found) && length == n
            }
        }
    }

    fn run(&self, input: &'a [I], offset: usize) -> (r: ParseResult<String>) {
        let n = self.chars.len();
        let len = input.len();
        if n > len - offset {
            return ParseResult::failed_with_uncommitted(
                ParseError::of_mismatch(offset, 0, "unexpected end of input".to_owned()),
            );
        }
        let ghost found = chars_of_elements(input@.subrange(offset as int, offset + n));
        let mut matched = String::new();
        let mut i: usize = 0;
        while i < n
            invariant
                n == self.chars@.len(),
                self.chars@ == self.text@,
                len == input@.len(),
                offset + n <= len,
                found == chars_of_elements(input@.subrange(offset as int, offset + n)),
                found.len() == n,
                i <= n,
                forall|k: int| 0 <= k < i ==> lowercase_first(found[k]) == lowercase_first(self.chars@[k]),
                matched@ == lowercase_chars(found).take(i as int),
            decreases n - i,
        {
            let c = to_lowercase_first(input[offset + i].to_char());
            let t = to_lowercase_first(self.chars[i]);
            proof {
                assert(found[i as int] == input@[offset + i].view_char());
            }
            if c != t {
                proof {
                    assert(lowercase_chars(found)[i as int] != lowercase_chars(self.text@)[i as int]);
                }
                let f = list_debug_string(slice_subrange(input, offset, offset + n));
                let mut msg = "expected: ".to_owned();
                push_str(&mut msg, self.text.as_str());
                push_str(&mut msg, " (case insensitive), but got: ");
                push_str(&mut msg, f.as_str());
                return ParseResult::failed_with_uncommitted(ParseError::of_mismatch(offset, 0, msg));
            }
            push_char(&mut matched, c);
            proof {
                assert(matched@ =~= lowercase_chars(found).take(i + 1));
            }
            i = i + 1;
        }
        proof {
            assert(lowercase_chars(found) =~= lowercase_chars(self.text@));
            assert(lowercase_chars(found).take(n as int) =~= lowercase_chars(found));
        }
        ParseResult::successful(matched, n)
    }
}

} // verus!
