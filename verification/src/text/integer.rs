//! A parser for signed decimal integers.
use vstd::prelude::*;
use crate::chars::{is_ascii_digit, spec_is_ascii_digit};
use crate::fail::{Fail, PResult};
use crate::input::Input;
use crate::parser::Parser;
use crate::str_input::{StrInput, byte_len, char_width, len_utf8, split_first_char, str_byte_len, lemma_byte_len_concat, lemma_byte_len_take_step, lemma_byte_len_take_mono};

verus! {

/// Matches an optional `-` followed by at least one ASCII digit, as an `i64`.
pub struct Integer;

/// A parser for signed decimal integers.
pub fn integer() -> (p: Integer) {
    Integer
}

/// The value of a sequence of decimal digits.
pub open spec fn decimal_value(s: Seq<char>) -> int
    decreases s.len(),
{
    if s.len() == 0 {
        0
    } else {
        decimal_value(s.drop_last()) * 10 + (s.last() as int - '0' as int)
    }
}

/// `s` begins with exactly `m` ASCII digits.
pub open spec fn is_digit_run(s: Seq<char>, m: int) -> bool {
    &&& 0 <= m <= s.len()
    &&& forall|i: int| 0 <= i < m ==> spec_is_ascii_digit(#[trigger] s[i])
    &&& m < s.len() ==> !spec_is_ascii_digit(s[m])
}

/// Number of characters taken by the sign.
pub open spec fn sign_len(s: Seq<char>) -> int {
    if s.len() > 0 && s[0] == '-' { 1 } else { 0 }
}

proof fn lemma_decimal_nonneg_mono(s: Seq<char>)
    requires
        forall|i: int| 0 <= i < s.len() ==> spec_is_ascii_digit(#[trigger] s[i]),
    ensures
        decimal_value(s) >= 0,
    decreases s.len(),
{
    if s.len() > 0 {
        lemma_decimal_nonneg_mono(s.drop_last());
    }
}

impl<'a> Parser<StrInput<'a>> for Integer {
    type Output = i64;
    type Error = String;

    open spec fn inv(&self) -> bool {
        true
    }

    /// Reads an optional `-` and the longest run of digits after it. With no digit
    /// it backtracks; when the value does not fit in `i64` it backtracks with the
    /// message of `i64` parsing; otherwise it consumes the sign and digits. Nothing
    /// is consumed on failure.
    open spec fn spec_parse(&self, before: StrInput<'a>, after: StrInput<'a>, r: PResult<i64, String>) -> bool {
        let s = before.rest();
        let start = sign_len(s);
        exists|m: int| #[trigger] is_digit_run(s.skip(start), m) && {
            let d = decimal_value(s.subrange(start, start + m));
            let v = if start == 1 { -d } else { d };
            if m == 0 {
                &&& after == before
                &&& r matches Err(Fail::Backtrack(msg)) && msg@ == "integer: expected digit"@
            } else if v > i64::MAX {
                &&& after == before
                &&& r matches Err(Fail::Backtrack(msg))
                    && msg@ == "integer: number too large to fit in target type"@
            } else if v < i64::MIN {
                &&& after == before
                &&& r matches Err(Fail::Backtrack(msg))
                    && msg@ == "integer: number too small to fit in target type"@
            } else {
                &&& r == Ok::<i64, Fail<String>>(v as i64)
                &&& after == before.at_index(before.index() + start + m)
            }
        }
    }

    fn parse_next(&mut self, input: &mut StrInput<'a>) -> (r: PResult<i64, String>) {
        proof {
            input.lemma_wf();
            input.lemma_advanced_refl();
        }
        let remaining = input.as_str();
        let total = str_byte_len(remaining);
        let ghost s = remaining@;
        proof {
            lemma_byte_len_take_mono(s, 0, s.len() as int);
            assert(s.take(s.len() as int) =~= s);
        }
        let mut cur = remaining;
        let mut consumed: usize = 0;
        let mut neg = false;
        if !cur.is_empty() {
            let (c, next) = split_first_char(cur);
            if c == '-' {
                neg = true;
                consumed = 1;
                cur = next;
                proof {
                    assert(s.take(1) =~= seq!['-']);
                }
            }
        }
        let ghost start: int = if neg { 1 } else { 0 };
        let ghost t = s.skip(start);
        proof {
            assert(start == sign_len(s));
            assert(cur@ =~= t);
            if !neg {
                assert(s.take(0) =~= Seq::<char>::empty());
            }
        }
        let mut mag: u128 = 0;
        let mut big = false;
        let mut m: usize = 0;
        let mut go = true;
        while go && !cur.is_empty()
            invariant
                total == byte_len(s),
                s.len() <= byte_len(s),
                0 <= start <= 1,
                t == s.skip(start),
                start <= s.len(),
                0 <= m <= t.len(),
                cur@ == t.skip(m as int),
                consumed == byte_len(s.take(start + m)),
                forall|i: int| 0 <= i < m ==> spec_is_ascii_digit(#[trigger] t[i]),
                !go ==> m < t.len() && !spec_is_ascii_digit(t[m as int]),
                !big ==> mag == decimal_value(t.take(m as int)),
                big ==> decimal_value(t.take(m as int)) > 0x8000_0000_0000_0000,
                mag <= 0x8000_0000_0000_0000,
            decreases cur@.len() + (if go { 1int } else { 0int }),
        {
            let (c, next) = split_first_char(cur);
            proof {
                assert(t[m as int] == c);
            }
            if is_ascii_digit(c) {
                proof {
                    let tm = t.take(m as int);
                    let tm1 = t.take(m + 1);
                    assert(tm1.drop_last() =~= tm);
                    assert(tm1.last() == c);
                    lemma_decimal_nonneg_mono(tm);
                    assert(s.take(start + m + 1) =~= s.take(start + m) + seq![c]);
                    lemma_byte_len_take_step(s, start + m);
                    lemma_byte_len_take_mono(s, start + m + 1, s.len() as int);
                    assert(s.take(s.len() as int) =~= s);
                    assert(next@ =~= t.skip(m + 1));
                }
                let d = (c as u32 - '0' as u32) as u128;
                if !big {
                    mag = mag * 10 + d;
                    if mag > 0x8000_0000_0000_0000 {
                        big = true;
                        mag = 0;
                    }
                }
                consumed = consumed + len_utf8(c);
                m = m + 1;
                cur = next;
            } else {
                go = false;
            }
        }
        proof {
            assert(s.subrange(start, start + m) =~= t.take(m as int));
            assert(is_digit_run(t, m as int));
            lemma_decimal_nonneg_mono(t.take(m as int));
        }
        if m == 0 {
            return Err(Fail::Backtrack("integer: expected digit".to_owned()));
        }
        let value: i64;
        if neg {
            if big || mag > 0x8000_0000_0000_0000 {
                return Err(Fail::Backtrack("integer: number too small to fit in target type".to_owned()));
            }
            if mag == 0x8000_0000_0000_0000 {
                value = i64::MIN;
            } else {
                value = -(mag as i64);
            }
        } else {
            if big || mag > 0x7FFF_FFFF_FFFF_FFFF {
                return Err(Fail::Backtrack("integer: number too large to fit in target type".to_owned()));
            }
            value = mag as i64;
        }
        proof {
            input.lemma_at_index_advanced(input.index() + start + m);
            assert(s.take(start + m) == input.rest().take(start + m));
        }
        input.advance(consumed, Ghost(start + m));
        Ok(value)
    }
}

} // verus!
