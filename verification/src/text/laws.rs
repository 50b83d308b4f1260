//! What the text parsers read, stated with literal characters: which characters
//! count as digits and letters, and which character each JSON escape stands for.
use vstd::prelude::*;
use crate::fail::{Fail, PResult};
use crate::parser::Parser;
use crate::str_input::StrInput;
use super::integer::{Integer, decimal_value, is_digit_run, sign_len};
use super::identifier::{Identifier, is_ident_prefix};
use vstd::utf8::is_scalar;
use super::quoted::{QuotedBody, decode_quoted};
use super::quoted_string::QuotedString;
use super::quoted_string_cow::{CowStr, QuotedStringCow};

verus! {

/// The value of a sequence of the characters `0`..`9`, read in base ten.
pub open spec fn base_ten(s: Seq<char>) -> int
    decreases s.len(),
{
    if s.len() == 0 {
        0
    } else {
        base_ten(s.drop_last()) * 10 + (s.last() as u32 - 48)
    }
}

proof fn lemma_base_ten(s: Seq<char>)
    requires
        forall|i: int| 0 <= i < s.len() ==> '0' <= #[trigger] s[i] <= '9',
    ensures
        decimal_value(s) == base_ten(s),
    decreases s.len(),
{
    if s.len() > 0 {
        lemma_base_ten(s.drop_last());
    }
}

/// One for a leading `-`, else zero.
pub open spec fn minus_len(s: Seq<char>) -> int {
    if s.len() > 0 && s[0] == '-' {
        1
    } else {
        0
    }
}

/// `integer` reads an optional `-` and then every one of the characters `0`..`9`
/// that follow: with `k` such characters after the sign (and none right after
/// them), it backtracks without consuming when `k` is zero, and otherwise, when
/// the value fits in an `i64`, gives that value (negated after `-`) and moves past
/// the sign and the `k` digits.
pub proof fn law_integer_reads_every_decimal_digit<'a>(
    before: StrInput<'a>,
    after: StrInput<'a>,
    r: PResult<i64, String>,
    k: int,
)
    requires
        Integer.spec_parse(before, after, r),
        0 <= k,
        minus_len(before.rest()) + k <= before.rest().len(),
        forall|i: int|
            minus_len(before.rest()) <= i < minus_len(before.rest()) + k ==> '0' <= #[trigger] before.rest()[i] <= '9',
        minus_len(before.rest()) + k < before.rest().len() ==> !('0' <= before.rest()[minus_len(before.rest()) + k]
            <= '9'),
    ensures
        k == 0 ==> (r matches Err(Fail::Backtrack(_)) && after == before),
        ({
            let s = before.rest();
            let st = minus_len(s);
            let d = base_ten(s.subrange(st, st + k));
            let v = if st == 1 { -d } else { d };
            k > 0 && i64::MIN <= v <= i64::MAX ==> {
                &&& r == Ok::<i64, Fail<String>>(v as i64)
                &&& after == before.at_index(before.index() + st + k)
            }
        }),
{
    let s = before.rest();
    let st = minus_len(s);
    assert(st == sign_len(s));
    let t = s.skip(st);
    assert forall|i: int| 0 <= i < k implies '0' <= #[trigger] t[i] <= '9' by {
        assert(t[i] == s[st + i]);
    }
    if k < t.len() {
        assert(t[k] == s[st + k]);
    }
    assert(is_digit_run(t, k));
    let m = choose|m: int| #[trigger] is_digit_run(t, m) && {
        let d = decimal_value(s.subrange(st, st + m));
        let v = if st == 1 { -d } else { d };
        if m == 0 {
            &&& after == before
            &&& r matches Err(Fail::Backtrack(msg)) && msg@ == "integer: expected digit"@
        } else if v > i64::MAX {
            &&& after == before
            &&& r matches Err(Fail::Backtrack(msg)) && msg@ == "integer: number too large to fit in target type"@
        } else if v < i64::MIN {
            &&& after == before
            &&& r matches Err(Fail::Backtrack(msg)) && msg@ == "integer: number too small to fit in target type"@
        } else {
            &&& r == Ok::<i64, Fail<String>>(v as i64)
            &&& after == before.at_index(before.index() + st + m)
        }
    };
    if m < k {
        assert('0' <= t[m] <= '9');
    } else if k < m {
        assert(crate::chars::spec_is_ascii_digit(t[k]));
    }
    let ds = s.subrange(st, st + k);
    assert forall|i: int| 0 <= i < ds.len() implies '0' <= #[trigger] ds[i] <= '9' by {
        assert(ds[i] == s[st + i]);
    }
    lemma_base_ten(ds);
}

/// Decoding text that holds neither `"` nor `\` copies it as it is.
proof fn lemma_decode_copies(b: Seq<char>, i: int, j: int, acc: Seq<char>)
    requires
        0 <= i <= j <= b.len(),
        forall|k: int| i <= k < j ==> b[k] != '"' && b[k] != '\\',
    ensures
        decode_quoted(b, i, acc) == decode_quoted(b, j, acc + b.subrange(i, j)),
    decreases j - i,
{
    if i == j {
        assert(acc + b.subrange(i, j) =~= acc);
    } else {
        lemma_decode_copies(b, i + 1, j, acc.push(b[i]));
        assert(acc.push(b[i]) + b.subrange(i + 1, j) =~= acc + b.subrange(i, j));
    }
}

/// The body `x \c y "` decodes, with `c` one of JSON's one-letter escapes, to `x`,
/// the character that JSON assigns to `\c`, and `y`.
proof fn lemma_decode_one_escape(x: Seq<char>, c: char, y: Seq<char>, z: Seq<char>)
    requires
        forall|k: int| 0 <= k < x.len() ==> x[k] != '"' && x[k] != '\\',
        forall|k: int| 0 <= k < y.len() ==> y[k] != '"' && y[k] != '\\',
        c == '"' || c == '\\' || c == '/' || c == 'b' || c == 'f' || c == 'n' || c == 'r' || c == 't',
    ensures
        ({
            let b = x + seq!['\\', c] + y + seq!['"'] + z;
            let e = if c == 'b' {
                '\u{0008}'
            } else if c == 'f' {
                '\u{000C}'
            } else if c == 'n' {
                '\u{000A}'
            } else if c == 'r' {
                '\u{000D}'
            } else if c == 't' {
                '\u{0009}'
            } else {
                c
            };
            decode_quoted(b, 0, Seq::empty()) == (QuotedBody::Closed {
                value: x + seq![e] + y,
                len: (x.len() + y.len() + 3) as int,
            })
        }),
{
    let b = x + seq!['\\', c] + y + seq!['"'] + z;
    let n = x.len() as int;
    assert forall|k: int| 0 <= k < n implies b[k] != '"' && b[k] != '\\' by {
        assert(b[k] == x[k]);
    }
    lemma_decode_copies(b, 0, n, Seq::empty());
    assert(Seq::<char>::empty() + b.subrange(0, n) =~= x);
    assert(b[n] == '\\');
    assert(b[n + 1] == c);
    let e = if c == 'b' {
        '\u{0008}'
    } else if c == 'f' {
        '\u{000C}'
    } else if c == 'n' {
        '\u{000A}'
    } else if c == 'r' {
        '\u{000D}'
    } else if c == 't' {
        '\u{0009}'
    } else {
        c
    };
    assert(decode_quoted(b, n, x) == decode_quoted(b, n + 2, x.push(e)));
    let m = y.len() as int;
    assert forall|k: int| n + 2 <= k < n + 2 + m implies b[k] != '"' && b[k] != '\\' by {
        assert(b[k] == y[k - n - 2]);
    }
    lemma_decode_copies(b, n + 2, n + 2 + m, x.push(e));
    assert(x.push(e) + b.subrange(n + 2, n + 2 + m) =~= x + seq![e] + y);
    assert(b[n + 2 + m] == '"');
}

/// `quoted_string` decodes JSON's one-letter escapes: where the rest is
/// `"x\cy"z`, with no `"` or `\` in `x` or `y`, it gives `x`, the character that
/// `\c` stands for, and `y`: `\b` U+0008, `\f` U+000C, `\n` U+000A, `\r` U+000D,
/// `\t` U+0009, and `\"`, `\\`, `\/` the character itself. It moves past the
/// closing quote.
pub proof fn law_quoted_string_decodes_json_escapes<'a>(
    before: StrInput<'a>,
    after: StrInput<'a>,
    r: PResult<String, String>,
    x: Seq<char>,
    c: char,
    y: Seq<char>,
    z: Seq<char>,
)
    requires
        QuotedString.spec_parse(before, after, r),
        before.rest() == seq!['"'] + x + seq!['\\', c] + y + seq!['"'] + z,
        forall|k: int| 0 <= k < x.len() ==> x[k] != '"' && x[k] != '\\',
        forall|k: int| 0 <= k < y.len() ==> y[k] != '"' && y[k] != '\\',
        c == '"' || c == '\\' || c == '/' || c == 'b' || c == 'f' || c == 'n' || c == 'r' || c == 't',
    ensures
        after == before.at_index(before.index() + x.len() + y.len() + 4),
        c == 'b' ==> (r matches Ok(v) && v@ == x + seq!['\u{0008}'] + y),
        c == 'f' ==> (r matches Ok(v) && v@ == x + seq!['\u{000C}'] + y),
        c == 'n' ==> (r matches Ok(v) && v@ == x + seq!['\u{000A}'] + y),
        c == 'r' ==> (r matches Ok(v) && v@ == x + seq!['\u{000D}'] + y),
        c == 't' ==> (r matches Ok(v) && v@ == x + seq!['\u{0009}'] + y),
        c == '"' ==> (r matches Ok(v) && v@ == x + seq!['"'] + y),
        c == '\\' ==> (r matches Ok(v) && v@ == x + seq!['\\'] + y),
        c == '/' ==> (r matches Ok(v) && v@ == x + seq!['/'] + y),
{
    let s = before.rest();
    let b = s.skip(1);
    assert(b =~= x + seq!['\\', c] + y + seq!['"'] + z);
    lemma_decode_one_escape(x, c, y, z);
}

/// `quoted_string_cow` decodes JSON's one-letter escapes as `quoted_string` does,
/// and gives the decoded text as owned text.
pub proof fn law_quoted_string_cow_decodes_json_escapes<'a>(
    before: StrInput<'a>,
    after: StrInput<'a>,
    r: PResult<CowStr<'a>, crate::error::ParseError>,
    x: Seq<char>,
    c: char,
    y: Seq<char>,
    z: Seq<char>,
)
    requires
        QuotedStringCow.spec_parse(before, after, r),
        before.rest() == seq!['"'] + x + seq!['\\', c] + y + seq!['"'] + z,
        forall|k: int| 0 <= k < x.len() ==> x[k] != '"' && x[k] != '\\',
        forall|k: int| 0 <= k < y.len() ==> y[k] != '"' && y[k] != '\\',
        c == '"' || c == '\\' || c == '/' || c == 'b' || c == 'f' || c == 'n' || c == 'r' || c == 't',
    ensures
        after == before.at_index(before.index() + x.len() + y.len() + 4),
        r matches Ok(v) && v is Owned,
        c == 'b' ==> (r matches Ok(v) && v@ == x + seq!['\u{0008}'] + y),
        c == 'f' ==> (r matches Ok(v) && v@ == x + seq!['\u{000C}'] + y),
        c == 'n' ==> (r matches Ok(v) && v@ == x + seq!['\u{000A}'] + y),
        c == 'r' ==> (r matches Ok(v) && v@ == x + seq!['\u{000D}'] + y),
        c == 't' ==> (r matches Ok(v) && v@ == x + seq!['\u{0009}'] + y),
        c == '"' ==> (r matches Ok(v) && v@ == x + seq!['"'] + y),
        c == '\\' ==> (r matches Ok(v) && v@ == x + seq!['\\'] + y),
        c == '/' ==> (r matches Ok(v) && v@ == x + seq!['/'] + y),
{
    let s = before.rest();
    let b = s.skip(1);
    assert(b =~= x + seq!['\\', c] + y + seq!['"'] + z);
    lemma_decode_one_escape(x, c, y, z);
    let len = x.len() + y.len() + 3;
    assert(b.take(len - 1)[x.len() as int] == '\\');
}

/// A letter `A`..`Z` or `a`..`z`, or `_`.
pub open spec fn letter_or_underscore(c: char) -> bool {
    ('A' <= c <= 'Z') || ('a' <= c <= 'z') || c == '_'
}

/// A letter, a digit `0`..`9`, or `_`.
pub open spec fn letter_digit_or_underscore(c: char) -> bool {
    letter_or_underscore(c) || ('0' <= c <= '9')
}

/// `identifier` reads a letter or `_` and then every letter, digit `0`..`9` or `_`
/// after it: where the rest begins with such a run of `j` characters it gives the
/// run and moves past it; where the rest begins with anything else it backtracks
/// and consumes nothing.
pub proof fn law_identifier_reads_letters_digits_and_underscores<'a>(
    before: StrInput<'a>,
    after: StrInput<'a>,
    r: PResult<&'a str, String>,
    j: int,
)
    requires
        Identifier.spec_parse(before, after, r),
        1 <= j <= before.rest().len(),
    ensures
        ({
            let s = before.rest();
            letter_or_underscore(s[0]) && (forall|i: int| 1 <= i < j ==> letter_digit_or_underscore(#[trigger] s[i]))
                && (j < s.len() ==> !letter_digit_or_underscore(s[j])) ==> {
                &&& r matches Ok(v) && v@ == s.take(j)
                &&& after == before.at_index(before.index() + j)
            }
        }),
        !letter_or_underscore(before.rest()[0]) ==> (r matches Err(Fail::Backtrack(_)) && after == before),
{
    let s = before.rest();
    if letter_or_underscore(s[0]) && (forall|i: int| 1 <= i < j ==> letter_digit_or_underscore(#[trigger] s[i]))
        && (j < s.len() ==> !letter_digit_or_underscore(s[j])) {
        assert(is_ident_prefix(s, j));
        crate::laws::law_identifier_reads_the_whole_identifier(before, after, r);
    }
}

/// The value of a hexadecimal digit `0`..`9`, `a`..`f` or `A`..`F`.
pub open spec fn hex_digit_value(c: char) -> int {
    if '0' <= c <= '9' {
        c as u32 - 48
    } else if 'a' <= c <= 'f' {
        c as u32 - 87
    } else {
        c as u32 - 55
    }
}

/// A hexadecimal digit `0`..`9`, `a`..`f` or `A`..`F`.
pub open spec fn hex_digit(c: char) -> bool {
    ('0' <= c <= '9') || ('a' <= c <= 'f') || ('A' <= c <= 'F')
}

/// `quoted_string` decodes `\uXXXX`: where the rest is `"\uhhhh"z` with four
/// hexadecimal digits (either case) whose value `v` is a Unicode scalar value, it
/// gives the one character `v` and moves past the closing quote.
pub proof fn law_quoted_string_decodes_unicode_escapes<'a>(
    before: StrInput<'a>,
    after: StrInput<'a>,
    r: PResult<String, String>,
    h: Seq<char>,
    z: Seq<char>,
)
    requires
        QuotedString.spec_parse(before, after, r),
        h.len() == 4,
        forall|k: int| 0 <= k < 4 ==> hex_digit(#[trigger] h[k]),
        before.rest() == seq!['"', '\\', 'u'] + h + seq!['"'] + z,
        is_scalar((4096 * hex_digit_value(h[0]) + 256 * hex_digit_value(h[1]) + 16 * hex_digit_value(h[2])
            + hex_digit_value(h[3])) as u32),
    ensures
        r matches Ok(v) && v@ == seq![((4096 * hex_digit_value(h[0]) + 256 * hex_digit_value(h[1]) + 16
            * hex_digit_value(h[2]) + hex_digit_value(h[3])) as u32) as char],
        after == before.at_index(before.index() + 8),
{
    let s = before.rest();
    let b = s.skip(1);
    assert(b =~= seq!['\\', 'u'] + h + seq!['"'] + z);
    assert(b[0] == '\\' && b[1] == 'u');
    assert forall|k: int| 0 <= k < 4 implies b[2 + k] == h[k] by {}
    assert(b[6] == '"');
    assert forall|k: int| 0 <= k < 4 implies crate::chars::spec_is_ascii_hexdigit(#[trigger] b[2 + k])
        && crate::chars::spec_hex_value(b[2 + k]) == hex_digit_value(b[2 + k]) by {
        assert(hex_digit(h[k]));
    }
    assert(crate::chars::spec_is_ascii_hexdigit(b[2]));
    assert(crate::chars::spec_is_ascii_hexdigit(b[3]));
    assert(crate::chars::spec_is_ascii_hexdigit(b[4]));
    assert(crate::chars::spec_is_ascii_hexdigit(b[5]));
    assert(super::quoted::hex_run(b, 2) == 4);
    assert(super::quoted::hex4_value(b, 2) == ((4096 * hex_digit_value(h[0]) + 256 * hex_digit_value(h[1]) + 16
        * hex_digit_value(h[2]) + hex_digit_value(h[3])) as u32));
    assert(decode_quoted(b, 6, seq![super::quoted::hex4_value(b, 2) as char]) == (QuotedBody::Closed {
        value: seq![super::quoted::hex4_value(b, 2) as char],
        len: 7,
    }));
}

} // verus!
