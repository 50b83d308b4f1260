//! A parser for double-quoted strings with JSON escapes that borrows the text
//! when it holds no escape.
use vstd::prelude::*;
use crate::error::{Expected, ParseError};
use crate::fail::{Fail, PResult};
use crate::input::Input;
use crate::parser::Parser;
use crate::str_input::{StrInput, byte_len, len_utf8, split_at_boundary, split_first_char, str_byte_len, lemma_byte_len_concat, lemma_byte_len_take_mono, lemma_encode_single};
use crate::string_ops::push_str;
use super::quoted::{BodyOutcome, QuotedBody, decode_body, decode_quoted, lemma_decode_closed_len, lemma_decode_plain};
use super::{is_longest_run, scan_while};

verus! {

/// Text that is either borrowed from the input or owned.
pub enum CowStr<'a> {
    Borrowed(&'a str),
    Owned(String),
}

impl<'a> View for CowStr<'a> {
    type V = Seq<char>;

    open spec fn view(&self) -> Seq<char> {
        match self {
            CowStr::Borrowed(s) => s@,
            CowStr::Owned(s) => s@,
        }
    }
}

impl<'a> CowStr<'a> {
    /// The text.
    pub fn as_str(&self) -> (r: &str)
        ensures
            r@ == self@,
    {
        match self {
            CowStr::Borrowed(s) => *s,
            CowStr::Owned(s) => s.as_str(),
        }
    }
}

/// Matches `"..."` like `quoted_string`; the text is borrowed from the input
/// when there is no escape before the closing quote, and built otherwise.
pub struct QuotedStringCow;

/// A parser for double-quoted strings that borrows unescaped text.
pub fn quoted_string_cow() -> (p: QuotedStringCow) {
    QuotedStringCow
}

/// The error of each failure after the opening quote, for a string that starts
/// at byte `pos` and whose body is `b`.
pub open spec fn quoted_cow_error(pos: int, b: Seq<char>, d: QuotedBody) -> ParseError {
    match d {
        QuotedBody::Closed { .. } => ParseError { position: 0, expected: Expected::Eof },
        QuotedBody::Unterminated => ParseError {
            position: (pos + 1 + byte_len(b)) as usize,
            expected: Expected::Char('"'),
        },
        QuotedBody::EofAfterEscape { at } => ParseError {
            position: (pos + 1 + byte_len(b.take(at)) + 1) as usize,
            expected: Expected::Description("escape character after '\\'"),
        },
        QuotedBody::BadHex { at, digits } => ParseError {
            position: (pos + 1 + byte_len(b.take(at)) + 2 + digits) as usize,
            expected: Expected::Description("4 hex digits after \\u"),
        },
        QuotedBody::BadCodePoint { at } => ParseError {
            position: (pos + 1 + byte_len(b.take(at)) + 2) as usize,
            expected: Expected::Description("valid unicode code point"),
        },
        QuotedBody::BadEscape { at, .. } => ParseError {
            position: (pos + 1 + byte_len(b.take(at)) + 1) as usize,
            expected: Expected::Description("valid escape sequence"),
        },
    }
}

impl<'a> Parser<StrInput<'a>> for QuotedStringCow {
    type Output = CowStr<'a>;
    type Error = ParseError;

    open spec fn inv(&self) -> bool {
        true
    }

    /// Without an opening quote: backtracks, consuming nothing. A closed string is
    /// consumed; its text is borrowed iff no backslash precedes the closing quote.
    /// Any other outcome is a `Cut` at the byte where decoding stopped.
    open spec fn spec_parse(&self, before: StrInput<'a>, after: StrInput<'a>, r: PResult<CowStr<'a>, ParseError>) -> bool {
        let s = before.rest();
        if s.len() == 0 || s[0] != '"' {
            &&& after == before
            &&& r == Err::<CowStr<'a>, Fail<ParseError>>(
                Fail::Backtrack(ParseError { position: before.pos() as usize, expected: Expected::Char('"') }),
            )
        } else {
            let b = s.skip(1);
            match decode_quoted(b, 0, Seq::empty()) {
                QuotedBody::Closed { value, len } => {
                    &&& r matches Ok(v) && v@ == value && (v is Borrowed <==> !b.take(len - 1).contains('\\'))
                    &&& after == before.at_index(before.index() + 1 + len)
                },
                d => {
                    &&& after == before
                    &&& r == Err::<CowStr<'a>, Fail<ParseError>>(Fail::Cut(quoted_cow_error(before.pos(), b, d)))
                },
            }
        }
    }

    #[verifier::rlimit(60)]
    #[verifier::spinoff_prover]
    fn parse_next(&mut self, input: &mut StrInput<'a>) -> (r: PResult<CowStr<'a>, ParseError>) {
        proof {
            input.lemma_wf();
            input.lemma_advanced_refl();
        }
        let pos = input.offset();
        let remaining = input.as_str();
        let total = str_byte_len(remaining);
        let ghost s = remaining@;
        if remaining.is_empty() {
            return Err(Fail::Backtrack(ParseError::expected_char(pos, '"')));
        }
        let (open, body) = split_first_char(remaining);
        if open != '"' {
            return Err(Fail::Backtrack(ParseError::expected_char(pos, '"')));
        }
        let ghost b = body@;
        let plain = |x: char| -> (ok: bool)
            ensures
                ok == (x != '"' && x != '\\'),
            { x != '"' && x != '\\' };
        let (fast_bytes, Ghost(j)) = scan_while(&plain, body);
        proof {
            lemma_byte_len_take_mono(s, 1, s.len() as int);
            assert(s.take(s.len() as int) =~= s);
            assert(b =~= s.skip(1));
            assert(s.take(1) + b =~= s);
            lemma_byte_len_concat(s.take(1), b);
            lemma_byte_len_take_mono(b, j, b.len() as int);
            assert(b.take(b.len() as int) =~= b);
            input.lemma_wf();
            assert forall|i: int| 0 <= i < j implies b[i] != '"' && b[i] != '\\' by {
                assert(call_ensures(plain, (b[i],), true));
            }
            lemma_decode_plain(b, j);
            lemma_decode_closed_len(b, 0, Seq::empty());
            assert(byte_len(s) <= usize::MAX);
        }
        let (prefix, tail) = split_at_boundary(body, fast_bytes, Ghost(j));
        if tail.is_empty() {
            proof {
                assert(j == b.len());
                assert(b.take(j) =~= b);
            }
            return Err(Fail::Cut(ParseError::expected_char(pos + len_utf8(open) + fast_bytes, '"')));
        }
        let (c, _) = split_first_char(tail);
        proof {
            assert(c == b[j]);
            assert(call_ensures(plain, (b[j],), false));
        }
        if c == '"' {
            proof {
                assert(!b.take(j).contains('\\')) by {
                    if b.take(j).contains('\\') {
                        let k = choose|k: int| 0 <= k < b.take(j).len() && b.take(j)[k] == '\\';
                        assert(b[k] == '\\');
                    }
                }
                assert(s.take(j + 2) =~= s.take(1) + (b.take(j) + seq![c]));
                lemma_byte_len_concat(s.take(1), b.take(j) + seq![c]);
                lemma_byte_len_concat(b.take(j), seq![c]);
                lemma_encode_single(c);
                lemma_byte_len_take_mono(s, j + 2, s.len() as int);
                input.lemma_at_index_advanced(input.index() + j + 2);
            }
            let n = len_utf8(open) + fast_bytes + len_utf8(c);
            input.advance(n, Ghost(j + 2));
            return Ok(CowStr::Borrowed(prefix));
        }
        let mut acc = String::new();
        push_str(&mut acc, prefix);
        proof {
            assert(acc@ =~= b.take(j));
        }
        let outcome = decode_body(tail, Ghost(b), Ghost(j), fast_bytes, acc);
        proof {
            lemma_decode_closed_len(b, j, b.take(j));
            match decode_quoted(b, j, b.take(j)) {
                QuotedBody::EofAfterEscape { at } => lemma_byte_len_take_mono(b, at, b.len() as int),
                QuotedBody::BadHex { at, .. } => lemma_byte_len_take_mono(b, at, b.len() as int),
                QuotedBody::BadCodePoint { at } => lemma_byte_len_take_mono(b, at, b.len() as int),
                QuotedBody::BadEscape { at, .. } => lemma_byte_len_take_mono(b, at, b.len() as int),
                _ => {},
            }
        }
        let start = pos + len_utf8(open);
        match outcome {
            BodyOutcome::Closed { value, bytes } => {
                let ghost len = match decode_quoted(b, 0, Seq::empty()) {
                    QuotedBody::Closed { len, .. } => len,
                    _ => 0,
                };
                proof {
                    lemma_decode_closed_len(b, j, b.take(j));
                    assert(b.take(len - 1)[j] == '\\');
                    assert(b.take(len - 1).contains('\\'));
                    assert(s.take(1) + b.take(len) =~= s.take(1 + len));
                    lemma_byte_len_concat(s.take(1), b.take(len));
                    lemma_byte_len_take_mono(s, 1 + len, s.len() as int);
                    input.lemma_at_index_advanced(input.index() + 1 + len);
                }
                input.advance(len_utf8(open) + bytes, Ghost(1 + len));
                Ok(CowStr::Owned(value))
            }
            BodyOutcome::Unterminated => {
                proof {
                    assert(b.take(b.len() as int) =~= b);
                }
                Err(Fail::Cut(ParseError::expected_char(start + str_byte_len(body), '"')))
            }
            BodyOutcome::EofAfterEscape { at_bytes } => Err(
                Fail::Cut(ParseError::expected_description(start + at_bytes + 1, "escape character after '\\'")),
            ),
            BodyOutcome::BadHex { at_bytes, digits } => Err(
                Fail::Cut(ParseError::expected_description(start + at_bytes + 2 + digits, "4 hex digits after \\u")),
            ),
            BodyOutcome::BadCodePoint { at_bytes, .. } => Err(
                Fail::Cut(ParseError::expected_description(start + at_bytes + 2, "valid unicode code point")),
            ),
            BodyOutcome::BadEscape { at_bytes, .. } => Err(
                Fail::Cut(ParseError::expected_description(start + at_bytes + 1, "valid escape sequence")),
            ),
        }
    }
}

} // verus!
