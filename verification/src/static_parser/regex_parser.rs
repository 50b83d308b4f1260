//! A parser of a regular-expression match at the start of the rest of the input.
use vstd::prelude::*;
use super::element::Element;
use super::error::ParseError;
use super::literal::{chars_of, chars_of_elements};
use super::result::{ParseResult, is_mismatch};
use super::runner::ParserRunner;
use crate::str_input::{byte_len, char_index, is_boundary, split_at_boundary};
use crate::string_ops::push_char;

verus! {

/// `pattern` is a regular expression that the `regex` crate compiles.
pub uninterp spec fn regex_compiles(pattern: Seq<char>) -> bool;

/// The byte offsets of the start and end of the first (leftmost-first) match of
/// `pattern` in `text`, by the `regex` crate's rules.
pub uninterp spec fn regex_first_match(pattern: Seq<char>, text: Seq<char>) -> Option<(usize, usize)>;

/// `Regex::new(pattern).is_ok()`.
#[verifier::external_body]
pub(crate) fn regex_is_valid(pattern: &str) -> (b: bool)
    ensures
        b == regex_compiles(pattern@),
{
    regex::Regex::new(pattern).is_ok()
}

/// The start and end of `Regex::new(pattern)?.find(text)`. The crate documents
/// that `start <= end` and that both fall on character boundaries of `text`.
#[verifier::external_body]
fn regex_find(pattern: &str, text: &str) -> (r: Option<(usize, usize)>)
    requires
        regex_compiles(pattern@),
    ensures
        r == regex_first_match(pattern@, text@),
        r matches Some((s, e)) ==> s <= e && is_boundary(text@, s as int) && is_boundary(text@, e as int),
{
    match regex::Regex::new(pattern) {
        Ok(re) => match re.find(text) {
            Some(m) => Some((m.start(), m.end())),
            None => None,
        },
        Err(_) => None,
    }
}

/// Reads the match of a regular expression that starts at the offset, taking the
/// input's elements as characters (a byte as its Latin-1 character). The result is
/// the matched text; its length is the number of matched elements, that is the
/// match's length in characters. (Counting the match's bytes instead would, on
/// non-ASCII text, consume more elements than matched and could pass the end of
/// the input; the character count is what stays within the matched elements.)
pub struct RegexParser<I> {
    pub pattern: String,
    pub element: core::marker::PhantomData<I>,
}

/// A regular-expression parser for `pattern`, which must compile.
pub fn new_regex_parser<I>(pattern: &str) -> (p: RegexParser<I>)
    requires
        regex_compiles(pattern@),
    ensures
        p.pattern@ == pattern@,
{
    RegexParser { pattern: pattern.to_owned(), element: core::marker::PhantomData }
}

impl<'a, I: Element + 'a> ParserRunner<'a, I> for RegexParser<I> {
    type Output = String;

    open spec fn inv(&self) -> bool {
        regex_compiles(self.pattern@)
    }

    /// The rest of the input from the offset, as characters, is searched. A match
    /// that starts there gives its text: the first `k` characters, whose UTF-8
    /// encoding ends exactly at the match's end, consuming `k` elements; a match
    /// further on, or none, gives an uncommitted mismatch at the offset.
    open spec fn accepts(&self, input: Seq<I>, offset: int, r: ParseResult<String>) -> bool {
        let text = chars_of_elements(input.subrange(offset, input.len() as int));
        match regex_first_match(self.pattern@, text) {
            Some((s, e)) => if s == 0 {
                let k = char_index(text, e as int);
                &&& 0 <= k <= text.len()
                &&& byte_len(text.take(k)) == e
                &&& r matches ParseResult::Success { value, length } && value@ == text.take(k) && length == k
            } else {
                is_mismatch(r, offset, 0, "regex pattern did not match at the beginning"@)
            },
            None => is_mismatch(r, offset, 0, "regex pattern did not match"@),
        }
    }

    fn run(&self, input: &'a [I], offset: usize) -> (r: ParseResult<String>) {
        let len = input.len();
        let ghost text = chars_of_elements(input@.subrange(offset as int, len as int));
        let mut s = String::new();
        let mut i: usize = offset;
        while i < len
            invariant
                offset <= i <= len,
                len == input@.len(),
                s@ == chars_of_elements(input@.subrange(offset as int, i as int)),
            decreases len - i,
        {
            push_char(&mut s, input[i].to_char());
            proof {
                assert(chars_of_elements(input@.subrange(offset as int, i + 1)) =~= chars_of_elements(
                    input@.subrange(offset as int, i as int),
                ).push(input@[i as int].view_char()));
            }
            i = i + 1;
        }
        assert(s@ == text);
        match regex_find(self.pattern.as_str(), s.as_str()) {
            Some((st, en)) => {
                if st == 0 {
                    let ghost k = char_index(text, en as int);
                    let (matched, _) = split_at_boundary(s.as_str(), en, Ghost(k));
                    let count = chars_of(matched).len();
                    ParseResult::successful(matched.to_owned(), count)
                } else {
                    ParseResult::failed_with_uncommitted(
                        ParseError::of_mismatch(offset, 0, "regex pattern did not match at the beginning".to_owned()),
                    )
                }
            },
            None => ParseResult::failed_with_uncommitted(
                ParseError::of_mismatch(offset, 0, "regex pattern did not match".to_owned()),
            ),
        }
    }
}

} // verus!
