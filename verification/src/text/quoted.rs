//! The decoding of double-quoted strings with JSON escapes, shared by
//! `quoted_string` and `quoted_string_cow`.
use vstd::prelude::*;
use vstd::utf8::is_scalar;
use crate::chars::{hex_value, is_ascii_hexdigit, spec_hex_value, spec_is_ascii_hexdigit};
use crate::string_ops::{char_from_u32, push_char};
use crate::str_input::{byte_len, char_width, len_utf8, split_at_boundary, split_first_char, lemma_byte_len_take_step, lemma_char_width, lemma_byte_len_concat, lemma_byte_len_take_mono};

verus! {

/// The character that a one-letter escape `\c` stands for.
pub open spec fn simple_escape(c: char) -> Option<char> {
    if c == '"' {
        Some('"')
    } else if c == '\\' {
        Some('\\')
    } else if c == '/' {
        Some('/')
    } else if c == 'b' {
        Some('\u{0008}')
    } else if c == 'f' {
        Some('\u{000C}')
    } else if c == 'n' {
        Some('\n')
    } else if c == 'r' {
        Some('\r')
    } else if c == 't' {
        Some('\t')
    } else {
        None
    }
}

/// Number of hexadecimal digits (at most four) at index `from` of `s`.
pub open spec fn hex_run(s: Seq<char>, from: int) -> int {
    if !(from < s.len() && spec_is_ascii_hexdigit(s[from])) {
        0
    } else if !(from + 1 < s.len() && spec_is_ascii_hexdigit(s[from + 1])) {
        1
    } else if !(from + 2 < s.len() && spec_is_ascii_hexdigit(s[from + 2])) {
        2
    } else if !(from + 3 < s.len() && spec_is_ascii_hexdigit(s[from + 3])) {
        3
    } else {
        4
    }
}

/// The value of the four hexadecimal digits at index `from` of `s`.
pub open spec fn hex4_value(s: Seq<char>, from: int) -> u32 {
    (4096 * spec_hex_value(s[from]) + 256 * spec_hex_value(s[from + 1]) + 16 * spec_hex_value(s[from + 2])
        + spec_hex_value(s[from + 3])) as u32
}

/// Outcome of decoding a quoted string's body (the text after the opening quote).
/// Indices count characters of the body.
pub enum QuotedBody {
    /// The closing quote was found; `len` characters were read, the quote included.
    Closed { value: Seq<char>, len: int },
    /// The body ended without a closing quote.
    Unterminated,
    /// A backslash at index `at` ends the body.
    EofAfterEscape { at: int },
    /// After `\u` at index `at`, only `digits` hexadecimal digits follow.
    BadHex { at: int, digits: int },
    /// `\uXXXX` at index `at` names a surrogate, which is no character.
    BadCodePoint { at: int },
    /// `\c` at index `at` is no known escape.
    BadEscape { at: int, c: char },
}

/// Decodes `s` from index `i`, having produced `acc` so far.
pub open spec fn decode_quoted(s: Seq<char>, i: int, acc: Seq<char>) -> QuotedBody
    decreases s.len() - i,
{
    if i < 0 || i >= s.len() {
        QuotedBody::Unterminated
    } else if s[i] == '"' {
        QuotedBody::Closed { value: acc, len: i + 1 }
    } else if s[i] == '\\' {
        if i + 1 >= s.len() {
            QuotedBody::EofAfterEscape { at: i }
        } else if simple_escape(s[i + 1]) is Some {
            decode_quoted(s, i + 2, acc.push(simple_escape(s[i + 1])->0))
        } else if s[i + 1] == 'u' {
            if hex_run(s, i + 2) < 4 {
                QuotedBody::BadHex { at: i, digits: hex_run(s, i + 2) }
            } else if !is_scalar(hex4_value(s, i + 2)) {
                QuotedBody::BadCodePoint { at: i }
            } else {
                decode_quoted(s, i + 6, acc.push(hex4_value(s, i + 2) as char))
            }
        } else {
            QuotedBody::BadEscape { at: i, c: s[i + 1] }
        }
    } else {
        decode_quoted(s, i + 1, acc.push(s[i]))
    }
}

/// Hexadecimal digits are one byte wide.
pub proof fn lemma_hex_width(c: char)
    requires
        spec_is_ascii_hexdigit(c),
    ensures
        char_width(c) == 1,
{
    lemma_char_width(c);
}

/// Four hexadecimal digits at the start of `s` take four bytes.
pub proof fn lemma_hex4_bytes(s: Seq<char>)
    requires
        hex_run(s, 0) == 4,
    ensures
        byte_len(s.take(4)) == 4,
{
    assert(s.take(0) =~= Seq::<char>::empty());
    lemma_byte_len_take_step(s, 0);
    lemma_byte_len_take_step(s, 1);
    lemma_byte_len_take_step(s, 2);
    lemma_byte_len_take_step(s, 3);
    lemma_hex_width(s[0]);
    lemma_hex_width(s[1]);
    lemma_hex_width(s[2]);
    lemma_hex_width(s[3]);
}

/// Reads up to four hexadecimal digits from the start of `s`: how many there are,
/// their value when there are four, and what follows them.
pub fn read_hex4<'a>(s: &'a str) -> (res: (usize, u32, &'a str))
    ensures
        res.0 == hex_run(s@, 0),
        res.0 == 4 ==> res.1 == hex4_value(s@, 0) && res.2@ == s@.skip(4),
{
    let mut cur = s;
    let mut k: usize = 0;
    let mut v: u32 = 0;
    while k < 4
        invariant
            0 <= k <= 4,
            k <= s@.len(),
            cur@ == s@.skip(k as int),
            forall|j: int| 0 <= j < k ==> spec_is_ascii_hexdigit(#[trigger] s@[j]),
            v == (if k == 0 { 0int } else if k == 1 { spec_hex_value(s@[0]) as int } else if k == 2 {
                16 * spec_hex_value(s@[0]) + spec_hex_value(s@[1])
            } else if k == 3 {
                256 * spec_hex_value(s@[0]) + 16 * spec_hex_value(s@[1]) + spec_hex_value(s@[2])
            } else {
                hex4_value(s@, 0) as int
            }),
            v < 0x10000,
        decreases 4 - k,
    {
        if cur.is_empty() {
            return (k, v, cur);
        }
        let (c, next) = split_first_char(cur);
        proof {
            assert(s@[k as int] == c);
        }
        if !is_ascii_hexdigit(c) {
            return (k, v, cur);
        }
        let d = hex_value(c);
        proof {
            assert(next@ =~= s@.skip(k + 1));
        }
        v = v * 16 + d;
        k = k + 1;
        cur = next;
    }
    (k, v, cur)
}


/// Hexadecimal runs are unchanged by dropping a prefix.
pub proof fn lemma_hex_run_skip(s: Seq<char>, k: int, j: int)
    requires
        0 <= k <= s.len(),
        0 <= j,
    ensures
        hex_run(s.skip(k), j) == hex_run(s, k + j),
        hex_run(s, k + j) == 4 ==> hex4_value(s.skip(k), j) == hex4_value(s, k + j),
{
}

/// What the text after a backslash decodes to.
pub enum EscapeStep<'a> {
    /// The escape stands for `c`; `rest` follows it and it takes `width` bytes.
    Char { c: char, rest: &'a str, width: usize },
    /// Nothing follows the backslash.
    Eof,
    /// `\u` followed by only `digits` hexadecimal digits.
    BadHex { digits: usize },
    /// `\u` followed by the four digits `hex`, which name a surrogate.
    BadCodePoint { hex: &'a str },
    /// `\c` for an unknown `c`.
    BadEscape { c: char },
}

/// Number of characters that the escape at the start of `t` takes.
pub open spec fn escape_len(t: Seq<char>) -> int {
    if t[0] == 'u' { 5 } else { 1 }
}

/// The character that the escape at the start of `t` stands for.
pub open spec fn escape_char(t: Seq<char>) -> char {
    if simple_escape(t[0]) is Some { simple_escape(t[0])->0 } else { hex4_value(t, 1) as char }
}

/// Decodes the escape at the start of `t` (the text after a backslash).
pub fn decode_escape<'a>(t: &'a str) -> (r: EscapeStep<'a>)
    ensures
        t@.len() == 0 <==> r is Eof,
        t@.len() > 0 ==> match r {
            EscapeStep::Char { c, rest, width } => {
                &&& (simple_escape(t@[0]) is Some || (t@[0] == 'u' && hex_run(t@, 1) == 4 && is_scalar(
                    hex4_value(t@, 1),
                )))
                &&& c == escape_char(t@)
                &&& rest@ == t@.skip(escape_len(t@))
                &&& width == byte_len(t@.take(escape_len(t@)))
            },
            EscapeStep::BadHex { digits } => t@[0] == 'u' && simple_escape(t@[0]) is None && hex_run(t@, 1)
                < 4 && digits == hex_run(t@, 1),
            EscapeStep::BadCodePoint { hex } => t@[0] == 'u' && simple_escape(t@[0]) is None && hex_run(t@, 1)
                == 4 && !is_scalar(hex4_value(t@, 1)) && hex@ == t@.subrange(1, 5),
            EscapeStep::BadEscape { c } => c == t@[0] && simple_escape(c) is None && c != 'u',
            EscapeStep::Eof => false,
        },
{
    if t.is_empty() {
        return EscapeStep::Eof;
    }
    let (e, next) = split_first_char(t);
    let w = len_utf8(e);
    let mapped = if e == '"' {
        Some('"')
    } else if e == '\\' {
        Some('\\')
    } else if e == '/' {
        Some('/')
    } else if e == 'b' {
        Some('\u{0008}')
    } else if e == 'f' {
        Some('\u{000C}')
    } else if e == 'n' {
        Some('\n')
    } else if e == 'r' {
        Some('\r')
    } else if e == 't' {
        Some('\t')
    } else {
        None
    };
    assert(mapped == simple_escape(e));
    match mapped {
        Some(x) => EscapeStep::Char { c: x, rest: next, width: w },
        None => {
            if e != 'u' {
                return EscapeStep::BadEscape { c: e };
            }
            let (k, code, after_hex) = read_hex4(next);
            proof {
                lemma_hex_run_skip(t@, 1, 0);
                assert(next@ =~= t@.skip(1));
            }
            if k < 4 {
                return EscapeStep::BadHex { digits: k };
            }
            proof {
                lemma_hex4_bytes(next@);
                assert(t@.take(1) + next@.take(4) =~= t@.take(5));
                lemma_byte_len_concat(t@.take(1), next@.take(4));
                assert(after_hex@ =~= t@.skip(5));
                assert(next@.take(4) =~= t@.subrange(1, 5));
            }
            let (hex_text, _) = split_at_boundary(next, 4, Ghost(4));
            match char_from_u32(code) {
                Some(x) => EscapeStep::Char { c: x, rest: after_hex, width: w + 4 },
                None => EscapeStep::BadCodePoint { hex: hex_text },
            }
        }
    }
}


/// The decoded body, or where and why decoding stopped (byte offsets into the body).
pub enum BodyOutcome<'a> {
    Closed { value: String, bytes: usize },
    Unterminated,
    EofAfterEscape { at_bytes: usize },
    BadHex { at_bytes: usize, digits: usize },
    BadCodePoint { at_bytes: usize, hex: &'a str },
    BadEscape { at_bytes: usize, c: char },
}

/// `r` reports the decoding outcome `d` of the body `b`.
pub open spec fn reports(b: Seq<char>, d: QuotedBody, r: BodyOutcome) -> bool {
    match d {
        QuotedBody::Closed { value, len } => r matches BodyOutcome::Closed { value: v, bytes } && v@ == value
            && bytes == byte_len(b.take(len)),
        QuotedBody::Unterminated => r is Unterminated,
        QuotedBody::EofAfterEscape { at } => r matches BodyOutcome::EofAfterEscape { at_bytes }
            && at_bytes == byte_len(b.take(at)),
        QuotedBody::BadHex { at, digits } => r matches BodyOutcome::BadHex { at_bytes, digits: k }
            && at_bytes == byte_len(b.take(at)) && k == digits,
        QuotedBody::BadCodePoint { at } => r matches BodyOutcome::BadCodePoint { at_bytes, hex }
            && at_bytes == byte_len(b.take(at)) && hex@ == b.subrange(at + 2, at + 6),
        QuotedBody::BadEscape { at, c } => r matches BodyOutcome::BadEscape { at_bytes, c: x }
            && at_bytes == byte_len(b.take(at)) && x == c,
    }
}

/// A closed body ends within the text.
pub proof fn lemma_decode_closed_len(s: Seq<char>, i: int, acc: Seq<char>)
    ensures
        decode_quoted(s, i, acc) matches QuotedBody::Closed { len, .. } ==> 0 <= i < len <= s.len(),
        decode_quoted(s, i, acc) matches QuotedBody::Closed { len, .. } ==> (s[i] != '"' ==> i + 1 < len),
        decode_quoted(s, i, acc) matches QuotedBody::BadCodePoint { at } ==> 0 <= i <= at && at + 6 <= s.len(),
        decode_quoted(s, i, acc) matches QuotedBody::EofAfterEscape { at } ==> 0 <= i <= at < s.len(),
        decode_quoted(s, i, acc) matches QuotedBody::BadHex { at, digits } ==> 0 <= i <= at && at + 2 + digits <= s.len() && 0 <= digits,
        decode_quoted(s, i, acc) matches QuotedBody::BadEscape { at, .. } ==> 0 <= i <= at && at + 2 <= s.len(),
    decreases s.len() - i,
{
    if i < 0 || i >= s.len() {
    } else if s[i] == '"' {
    } else if s[i] == '\\' {
        if i + 1 >= s.len() {
        } else if simple_escape(s[i + 1]) is Some {
            lemma_decode_closed_len(s, i + 2, acc.push(simple_escape(s[i + 1])->0));
        } else if s[i + 1] == 'u' {
            if hex_run(s, i + 2) < 4 {
            } else if !is_scalar(hex4_value(s, i + 2)) {
            } else {
                lemma_decode_closed_len(s, i + 6, acc.push(hex4_value(s, i + 2) as char));
            }
        }
    } else {
        lemma_decode_closed_len(s, i + 1, acc.push(s[i]));
    }
}

/// Characters that are neither a quote nor a backslash decode to themselves.
pub proof fn lemma_decode_plain(b: Seq<char>, j: int)
    requires
        0 <= j <= b.len(),
        forall|i: int| 0 <= i < j ==> b[i] != '"' && b[i] != '\\',
    ensures
        decode_quoted(b, 0, Seq::empty()) == decode_quoted(b, j, b.take(j)),
    decreases j,
{
    if j == 0 {
        assert(b.take(0) =~= Seq::<char>::empty());
    } else {
        lemma_decode_plain(b, j - 1);
        assert(b.take(j - 1).push(b[j - 1]) =~= b.take(j));
    }
}

/// Decodes the body `b` from character index `j` (where `cur` starts, `start`
/// bytes in), having produced `acc`.
pub fn decode_body<'a>(cur: &'a str, Ghost(b): Ghost<Seq<char>>, Ghost(j): Ghost<int>, start: usize, acc: String) -> (r: BodyOutcome<'a>)
    requires
        0 <= j <= b.len(),
        cur@ == b.skip(j),
        start == byte_len(b.take(j)),
        byte_len(b) <= usize::MAX,
    ensures
        reports(b, decode_quoted(b, j, acc@), r),
{
    let mut cur = cur;
    let mut consumed = start;
    let mut result = acc;
    let ghost mut i: int = j;
    proof {
        assert(b.take(b.len() as int) =~= b);
    }
    loop
        invariant
            byte_len(b) <= usize::MAX,
            b.take(b.len() as int) == b,
            0 <= j <= i <= b.len(),
            cur@ == b.skip(i),
            consumed == byte_len(b.take(i)),
            decode_quoted(b, j, acc@) == decode_quoted(b, i, result@),
        decreases b.len() - i,
    {
        if cur.is_empty() {
            return BodyOutcome::Unterminated;
        }
        let (c, next) = split_first_char(cur);
        proof {
            assert(b[i] == c);
            lemma_byte_len_take_step(b, i);
            lemma_byte_len_take_mono(b, i + 1, b.len() as int);
            assert(next@ =~= b.skip(i + 1));
        }
        if c == '"' {
            return BodyOutcome::Closed { value: result, bytes: consumed + len_utf8(c) };
        } else if c == '\\' {
            let step = decode_escape(next);
            proof {
                lemma_hex_run_skip(b, i + 1, 1);
                assert(next@.len() > 0 ==> next@[0] == b[i + 1]);
            }
            match step {
                EscapeStep::Char { c: x, rest, width } => {
                    proof {
                        let t = next@;
                        let n = escape_len(t);
                        assert(t.take(n) =~= b.subrange(i + 1, i + 1 + n));
                        assert(b.take(i + 1) + t.take(n) =~= b.take(i + 1 + n));
                        lemma_byte_len_concat(b.take(i + 1), t.take(n));
                        lemma_byte_len_take_mono(b, i + 1 + n, b.len() as int);
                        assert(rest@ =~= b.skip(i + 1 + n));
                    }
                    push_char(&mut result, x);
                    consumed = consumed + len_utf8(c) + width;
                    cur = rest;
                    proof {
                        i = i + 1 + escape_len(next@);
                    }
                }
                EscapeStep::Eof => {
                    return BodyOutcome::EofAfterEscape { at_bytes: consumed };
                }
                EscapeStep::BadHex { digits } => {
                    return BodyOutcome::BadHex { at_bytes: consumed, digits };
                }
                EscapeStep::BadCodePoint { hex } => {
                    proof {
                        assert(next@.subrange(1, 5) =~= b.subrange(i + 2, i + 6));
                    }
                    return BodyOutcome::BadCodePoint { at_bytes: consumed, hex };
                }
                EscapeStep::BadEscape { c: e } => {
                    return BodyOutcome::BadEscape { at_bytes: consumed, c: e };
                }
            }
        } else {
            push_char(&mut result, c);
            consumed = consumed + len_utf8(c);
            cur = next;
            proof {
                i = i + 1;
            }
        }
    }
}

} // verus!
