//! A parser for ASCII identifiers `[a-zA-Z_][a-zA-Z0-9_]*`.
use vstd::prelude::*;
use crate::chars::{is_ascii_alphabetic, is_ascii_alphanumeric, spec_is_ascii_alphabetic, spec_is_ascii_alphanumeric};
use crate::fail::{Fail, PResult};
use crate::input::Input;
use crate::parser::Parser;
use crate::str_input::{StrInput, byte_len, len_utf8, split_at_boundary, split_first_char, str_byte_len, lemma_byte_len_concat, lemma_byte_len_take_mono};
use crate::message::with_char;
use super::{is_longest_run, scan_while};

verus! {

/// Matches an identifier: an ASCII letter or `_`, then ASCII letters, digits or `_`.
pub struct Identifier;

/// A parser for ASCII identifiers.
pub fn identifier() -> (p: Identifier) {
    Identifier
}

pub open spec fn is_ident_start(c: char) -> bool {
    spec_is_ascii_alphabetic(c) || c == '_'
}

pub open spec fn is_ident_continue(c: char) -> bool {
    spec_is_ascii_alphanumeric(c) || c == '_'
}

/// `s` begins with an identifier of exactly `j` characters.
pub open spec fn is_ident_prefix(s: Seq<char>, j: int) -> bool {
    &&& 1 <= j <= s.len()
    &&& is_ident_start(s[0])
    &&& forall|i: int| 1 <= i < j ==> is_ident_continue(#[trigger] s[i])
    &&& j < s.len() ==> !is_ident_continue(s[j])
}

impl<'a> Parser<StrInput<'a>> for Identifier {
    type Output = &'a str;
    type Error = String;

    open spec fn inv(&self) -> bool {
        true
    }

    /// Consumes and returns the identifier at the start of the rest; otherwise
    /// consumes nothing and backtracks.
    open spec fn spec_parse(&self, before: StrInput<'a>, after: StrInput<'a>, r: PResult<&'a str, String>) -> bool {
        let s = before.rest();
        if s.len() == 0 {
            &&& after == before
            &&& r matches Err(Fail::Backtrack(m)) && m@ == "identifier: unexpected EOF"@
        } else if !is_ident_start(s[0]) {
            &&& after == before
            &&& r matches Err(Fail::Backtrack(m))
                && m@ == "identifier: expected alphabetic or '_', found '"@ + seq![s[0]] + "'"@
        } else {
            exists|j: int| #[trigger] is_ident_prefix(s, j) && {
                &&& r matches Ok(v) && v@ == s.take(j)
                &&& after == before.at_index(before.index() + j)
            }
        }
    }

    fn parse_next(&mut self, input: &mut StrInput<'a>) -> (r: PResult<&'a str, String>) {
        proof {
            input.lemma_wf();
            input.lemma_advanced_refl();
        }
        let remaining = input.as_str();
        if remaining.is_empty() {
            return Err(Fail::Backtrack("identifier: unexpected EOF".to_owned()));
        }
        let (c, tail) = split_first_char(remaining);
        if !(is_ascii_alphabetic(c) || c == '_') {
            return Err(Fail::Backtrack(with_char("identifier: expected alphabetic or '_', found '", c, "'")));
        }
        let cont = |x: char| -> (b: bool)
            ensures
                b == is_ident_continue(x),
            { is_ascii_alphanumeric(x) || x == '_' };
        let (tail_bytes, Ghost(k)) = scan_while(&cont, tail);
        let first = len_utf8(c);
        let total = str_byte_len(remaining);
        let ghost j = k + 1;
        proof {
            let s = remaining@;
            assert(s.take(j) =~= s.take(1) + tail@.take(k));
            lemma_byte_len_concat(s.take(1), tail@.take(k));
            lemma_byte_len_take_mono(s, j, s.len() as int);
            assert(s.take(s.len() as int) =~= s);
        }
        let consumed = first + tail_bytes;
        proof {
            let s = remaining@;
            assert forall|i: int| 1 <= i < j implies is_ident_continue(#[trigger] s[i]) by {
                assert(s[i] == tail@[i - 1]);
                assert(call_ensures(cont, (tail@[i - 1],), true));
            }
            if j < s.len() {
                assert(s[j] == tail@[k]);
                assert(call_ensures(cont, (tail@[k],), false));
            }
            assert(is_ident_prefix(s, j));
            input.lemma_at_index_advanced(input.index() + j);
        }
        let (taken, _) = split_at_boundary(remaining, consumed, Ghost(j));
        input.advance(consumed, Ghost(j));
        Ok(taken)
    }
}

} // verus!
