//! A parser for double-quoted strings with JSON escapes, producing a `String`.
use vstd::prelude::*;
use crate::fail::{Fail, PResult};
use crate::input::Input;
use crate::parser::Parser;
use crate::str_input::{StrInput, byte_len, len_utf8, split_at_boundary, split_first_char, str_byte_len, lemma_byte_len_take_step, lemma_byte_len_take_mono, lemma_byte_len_concat};
use crate::message::{with_char, with_str};
use super::quoted::{BodyOutcome, QuotedBody, decode_body, decode_quoted, lemma_decode_closed_len};

verus! {

/// Matches `"..."` with the escapes `\" \\ \/ \b \f \n \r \t \uXXXX` and returns
/// the decoded text.
pub struct QuotedString;

/// A parser for double-quoted strings with JSON escapes.
pub fn quoted_string() -> (p: QuotedString) {
    QuotedString
}

/// The message of each failure after the opening quote.
pub open spec fn quoted_string_message(body: Seq<char>, d: QuotedBody) -> Seq<char> {
    match d {
        QuotedBody::Closed { .. } => Seq::empty(),
        QuotedBody::Unterminated => "quoted_string: unterminated string"@,
        QuotedBody::EofAfterEscape { .. } => "quoted_string: unexpected EOF after '\\'"@,
        QuotedBody::BadHex { .. } => "quoted_string: expected 4 hex digits after \\u"@,
        QuotedBody::BadCodePoint { at } => "quoted_string: invalid unicode code point: U+"@ + body.subrange(
            at + 2,
            at + 6,
        ),
        QuotedBody::BadEscape { c, .. } => "quoted_string: invalid escape sequence '\\"@ + seq![c] + "'"@,
    }
}

impl<'a> Parser<StrInput<'a>> for QuotedString {
    type Output = String;
    type Error = String;

    open spec fn inv(&self) -> bool {
        true
    }

    /// Without an opening quote: backtracks, consuming nothing. Otherwise the body
    /// is decoded: a closed string is consumed and its text returned; any other
    /// outcome is a `Cut` with its message, consuming nothing.
    open spec fn spec_parse(&self, before: StrInput<'a>, after: StrInput<'a>, r: PResult<String, String>) -> bool {
        let s = before.rest();
        if s.len() == 0 || s[0] != '"' {
            &&& after == before
            &&& r matches Err(Fail::Backtrack(m)) && m@ == "quoted_string: expected '\"'"@
        } else {
            let body = s.skip(1);
            match decode_quoted(body, 0, Seq::empty()) {
                QuotedBody::Closed { value, len } => {
                    &&& r matches Ok(v) && v@ == value
                    &&& after == before.at_index(before.index() + 1 + len)
                },
                d => {
                    &&& after == before
                    &&& r matches Err(Fail::Cut(m)) && m@ == quoted_string_message(body, d)
                },
            }
        }
    }

    fn parse_next(&mut self, input: &mut StrInput<'a>) -> (r: PResult<String, String>) {
        proof {
            input.lemma_wf();
            input.lemma_advanced_refl();
        }
        let remaining = input.as_str();
        let total = str_byte_len(remaining);
        let ghost s = remaining@;
        if remaining.is_empty() {
            return Err(Fail::Backtrack("quoted_string: expected '\"'".to_owned()));
        }
        let (open, body) = split_first_char(remaining);
        if open != '"' {
            return Err(Fail::Backtrack("quoted_string: expected '\"'".to_owned()));
        }
        let ghost b = body@;
        proof {
            lemma_byte_len_take_mono(s, 1, s.len() as int);
            assert(s.take(s.len() as int) =~= s);
            assert(b =~= s.skip(1));
            assert(b.take(0) =~= Seq::<char>::empty());
            assert(b.skip(0) =~= b);
            assert(s.take(1) + b =~= s);
            lemma_decode_closed_len(b, 0, Seq::empty());
            lemma_byte_len_concat(s.take(1), b);
            input.lemma_wf();
        }
        match decode_body(body, Ghost(b), Ghost(0), 0, String::new()) {
            BodyOutcome::Closed { value, bytes } => {
                let ghost len = match decode_quoted(b, 0, Seq::empty()) {
                    QuotedBody::Closed { len, .. } => len,
                    _ => 0,
                };
                proof {
                    assert(s.take(1) + b.take(len) =~= s.take(1 + len));
                    lemma_byte_len_concat(s.take(1), b.take(len));
                    lemma_byte_len_take_mono(s, 1 + len, s.len() as int);
                    input.lemma_at_index_advanced(input.index() + 1 + len);
                }
                input.advance(len_utf8(open) + bytes, Ghost(1 + len));
                Ok(value)
            }
            BodyOutcome::Unterminated => Err(Fail::Cut("quoted_string: unterminated string".to_owned())),
            BodyOutcome::EofAfterEscape { .. } => Err(Fail::Cut("quoted_string: unexpected EOF after '\\'".to_owned())),
            BodyOutcome::BadHex { .. } => Err(Fail::Cut("quoted_string: expected 4 hex digits after \\u".to_owned())),
            BodyOutcome::BadCodePoint { hex, .. } => {
                proof {
                    reveal_strlit("");
                }
                Err(Fail::Cut(with_str("quoted_string: invalid unicode code point: U+", hex, "")))
            }
            BodyOutcome::BadEscape { c, .. } => Err(Fail::Cut(with_char("quoted_string: invalid escape sequence '\\", c, "'"))),
        }
    }
}

} // verus!
