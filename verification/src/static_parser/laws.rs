//! Properties of the slice parsers that hold of every run.
use vstd::prelude::*;
use super::choice::{Attempt, Either, Exists, NotPred, Opt, Or, Peek};
use super::element::{Element, code_is_alpha, code_is_alpha_digit, code_is_digit, code_is_digit_1_9, code_is_hex_digit, code_is_multi_space, code_is_oct_digit, code_is_space};
use super::elements::{ElmPred, pred_outcome};
use super::error::CommittedStatus;
use super::literal::{Tag, TagNoCase, chars_of_elements, lowercase_chars};
use super::predicate::{ClassOf, ElementClass, NoneOf, OneOf};
use super::repeat::{RepSep, cap_of, rep_outcome, rep_rounds, lemma_rep_rounds_unfold};
use super::result::{ParseResult, spec_with_add_length, spec_with_uncommitted};
use super::runner::ParserRunner;
use super::regex_parser::{RegexParser, regex_first_match};
use crate::str_input::byte_len;
use super::sequence::{AndThen, SkipLeft, SkipRight};
use super::take::{TakeWhile0, TakeWhile1};
use super::predicate::ElementPredicate;
use crate::utils::range::Bound;
use crate::utils::set::ElementSet;

verus! {

/// `opt` never fails.
pub proof fn law_opt_never_fails<'a, I: 'a, P: ParserRunner<'a, I>>(
    p: Opt<P>,
    input: Seq<I>,
    offset: int,
    r: ParseResult<Option<P::Output>>,
)
    requires
        p.accepts(input, offset, r),
    ensures
        r is Success,
        r->value is None ==> r->length == 0,
{
}

/// `exists` never fails and consumes nothing; its value tells whether the parser
/// succeeded.
pub proof fn law_exists_consumes_nothing<'a, I: 'a, P: ParserRunner<'a, I>>(
    p: Exists<P>,
    input: Seq<I>,
    offset: int,
    r: ParseResult<bool>,
)
    requires
        p.accepts(input, offset, r),
    ensures
        r is Success,
        r->length == 0,
        exists|r0: ParseResult<P::Output>| #[trigger] p.parser.accepts(input, offset, r0) && r->value == r0 is Success,
{
}

/// `not` succeeds exactly when the parser fails, and then consumes nothing.
pub proof fn law_not_complements<'a, I: 'a, P: ParserRunner<'a, I>>(
    p: NotPred<P>,
    input: Seq<I>,
    offset: int,
    r: ParseResult<()>,
)
    requires
        p.accepts(input, offset, r),
    ensures
        exists|r0: ParseResult<P::Output>| #[trigger] p.parser.accepts(input, offset, r0) && (r is Success <==> r0 is Failure),
        r is Success ==> r->length == 0,
{
}

/// `attempt` never gives a committed failure, and changes nothing else.
pub proof fn law_attempt_uncommitted<'a, I: 'a, P: ParserRunner<'a, I>>(
    p: Attempt<P>,
    input: Seq<I>,
    offset: int,
    r: ParseResult<P::Output>,
)
    requires
        p.accepts(input, offset, r),
    ensures
        r is Failure ==> r->committed_status == CommittedStatus::Uncommitted,
        exists|r0: ParseResult<P::Output>| #[trigger] p.parser.accepts(input, offset, r0) && (r0 is Success ==> r == r0)
            && (r0 is Failure ==> r is Failure && r->error == r0->error),
{
}

/// `peek` consumes nothing.
pub proof fn law_peek_consumes_nothing<'a, I: 'a, P: ParserRunner<'a, I>>(
    p: Peek<P>,
    input: Seq<I>,
    offset: int,
    r: ParseResult<P::Output>,
)
    requires
        p.accepts(input, offset, r),
    ensures
        r is Success ==> r->length == 0,
{
}

/// `or` differs from its first parser only after an uncommitted failure of it.
pub proof fn law_or_keeps_first_unless_uncommitted<'a, I: 'a, P: ParserRunner<'a, I>, Q: ParserRunner<'a, I, Output = P::Output>>(
    p: Or<P, Q>,
    input: Seq<I>,
    offset: int,
    r: ParseResult<P::Output>,
)
    requires
        p.accepts(input, offset, r),
    ensures
        exists|r0: ParseResult<P::Output>| #[trigger] p.first.accepts(input, offset, r0) && (r0 is Success ==> r == r0)
            && (r0 matches ParseResult::Failure { committed_status: CommittedStatus::Committed, .. } ==> r == r0),
{
}

/// A success of `either` is a success of `or` over the same two parsers: the two
/// differ only in the error they give when both parsers fail.
pub proof fn law_either_succeeds_like_or<'a, I: 'a, P: ParserRunner<'a, I>, Q: ParserRunner<'a, I, Output = P::Output>>(
    first: P,
    second: Q,
    input: Seq<I>,
    offset: int,
    r: ParseResult<P::Output>,
)
    requires
        (Either { first, second }).accepts(input, offset, r),
        r is Success,
    ensures
        (Or { first, second }).accepts(input, offset, r),
{
    let e = Either { first, second };
    let r0 = choose|r0: ParseResult<P::Output>| #[trigger] e.first.accepts(input, offset, r0) && match r0 {
        ParseResult::Failure { error: e0, committed_status: CommittedStatus::Uncommitted } => exists|
            r1: ParseResult<P::Output>,
        | #[trigger] e.second.accepts(input, offset, r1) && match r1 {
            ParseResult::Failure { error: e1, committed_status: c1 } => r matches ParseResult::Failure {
                error: super::error::ParseError::Custom { offset: o, parent: None, message: m },
                committed_status: c,
            } && o == offset && m@ == super::choice::either_message(e0, e1) && c == c1,
            _ => r == r1,
        },
        _ => r == r0,
    };
    if r0 matches ParseResult::Failure { committed_status: CommittedStatus::Uncommitted, .. } {
        let r1 = choose|r1: ParseResult<P::Output>| #[trigger] e.second.accepts(input, offset, r1) && match r1 {
            ParseResult::Failure { error: e1, committed_status: c1 } => r matches ParseResult::Failure {
                error: super::error::ParseError::Custom { offset: o, parent: None, message: m },
                committed_status: c,
            } && o == offset && m@ == super::choice::either_message(r0->error, e1) && c == c1,
            _ => r == r1,
        };
        assert(second.accepts(input, offset, r));
    }
    let o = Or { first, second };
    assert(o.first.accepts(input, offset, r0));
    if r0 matches ParseResult::Failure { committed_status: CommittedStatus::Uncommitted, .. } {
        assert(o.second.accepts(input, offset, r));
    } else {
        assert(r == r0);
    }
}

/// `skip_left` gives the second value of `and_then`: every result of one is, value
/// aside, a result of the other.
pub proof fn law_skip_left_is_second_of_and_then<'a, I: 'a, P: ParserRunner<'a, I>, Q: ParserRunner<'a, I>>(
    first: P,
    second: Q,
    input: Seq<I>,
    offset: int,
    r: ParseResult<Q::Output>,
)
    requires
        (SkipLeft { first, second }).accepts(input, offset, r),
    ensures
        exists|r2: ParseResult<(P::Output, Q::Output)>| #[trigger] (AndThen { first, second }).accepts(input, offset, r2)
            && match r2 {
            ParseResult::Success { value, length } => r == (ParseResult::Success { value: value.1, length }),
            ParseResult::Failure { error, committed_status } => r == (ParseResult::<Q::Output>::Failure {
                error,
                committed_status,
            }),
        },
{
    let s = SkipLeft { first, second };
    let a = AndThen { first, second };
    let r0 = choose|r0: ParseResult<P::Output>| #[trigger] s.first.accepts(input, offset, r0) && if r0 is Success {
        exists|r1: ParseResult<Q::Output>| #[trigger] s.second.accepts(input, offset + r0->length, r1)
            && super::sequence::in_sequence(r0, r1, r, |x: P::Output, y: Q::Output| y)
    } else {
        super::result::passes_failure(r, r0)
    };
    if r0 is Success {
        let r1 = choose|r1: ParseResult<Q::Output>| #[trigger] s.second.accepts(input, offset + r0->length, r1)
            && super::sequence::in_sequence(r0, r1, r, |x: P::Output, y: Q::Output| y);
        let r2 = match r1 {
            ParseResult::Success { value: b, length: n2 } => ParseResult::Success {
                value: (r0->value, b),
                length: (r0->length + n2) as usize,
            },
            ParseResult::Failure { error, committed_status } => ParseResult::Failure { error, committed_status },
        };
        assert(a.first.accepts(input, offset, r0));
        assert(a.second.accepts(input, offset + r0->length, r1));
        assert(super::sequence::in_sequence(r0, r1, r2, |x: P::Output, y: Q::Output| (x, y)));
        assert(a.accepts(input, offset, r2));
    } else {
        let r2 = ParseResult::<(P::Output, Q::Output)>::Failure {
            error: r0->error,
            committed_status: r0->committed_status,
        };
        assert(a.first.accepts(input, offset, r0));
        assert(a.accepts(input, offset, r2));
    }
}

/// `skip_right` gives the first value of `and_then`: every result of one is, value
/// aside, a result of the other.
pub proof fn law_skip_right_is_first_of_and_then<'a, I: 'a, P: ParserRunner<'a, I>, Q: ParserRunner<'a, I>>(
    first: P,
    second: Q,
    input: Seq<I>,
    offset: int,
    r: ParseResult<P::Output>,
)
    requires
        (SkipRight { first, second }).accepts(input, offset, r),
    ensures
        exists|r2: ParseResult<(P::Output, Q::Output)>| #[trigger] (AndThen { first, second }).accepts(input, offset, r2)
            && match r2 {
            ParseResult::Success { value, length } => r == (ParseResult::Success { value: value.0, length }),
            ParseResult::Failure { error, committed_status } => r == (ParseResult::<P::Output>::Failure {
                error,
                committed_status,
            }),
        },
{
    let s = SkipRight { first, second };
    let a = AndThen { first, second };
    let r0 = choose|r0: ParseResult<P::Output>| #[trigger] s.first.accepts(input, offset, r0) && if r0 is Success {
        exists|r1: ParseResult<Q::Output>| #[trigger] s.second.accepts(input, offset + r0->length, r1)
            && super::sequence::in_sequence(r0, r1, r, |x: P::Output, y: Q::Output| x)
    } else {
        super::result::passes_failure(r, r0)
    };
    if r0 is Success {
        let r1 = choose|r1: ParseResult<Q::Output>| #[trigger] s.second.accepts(input, offset + r0->length, r1)
            && super::sequence::in_sequence(r0, r1, r, |x: P::Output, y: Q::Output| x);
        let r2 = match r1 {
            ParseResult::Success { value: b, length: n2 } => ParseResult::Success {
                value: (r0->value, b),
                length: (r0->length + n2) as usize,
            },
            ParseResult::Failure { error, committed_status } => ParseResult::Failure { error, committed_status },
        };
        assert(a.first.accepts(input, offset, r0));
        assert(a.second.accepts(input, offset + r0->length, r1));
        assert(super::sequence::in_sequence(r0, r1, r2, |x: P::Output, y: Q::Output| (x, y)));
        assert(a.accepts(input, offset, r2));
    } else {
        let r2 = ParseResult::<(P::Output, Q::Output)>::Failure {
            error: r0->error,
            committed_status: r0->committed_status,
        };
        assert(a.first.accepts(input, offset, r0));
        assert(a.accepts(input, offset, r2));
    }
}

/// What `take_while1` reads, `take_while0` with the same test reads too; the
/// former only adds a failure for an empty run.
pub proof fn law_take_while1_within_take_while0<'a, I: 'a, P: ElementPredicate<I>>(
    pred: P,
    input: Seq<I>,
    offset: int,
    r: ParseResult<&'a [I]>,
)
    requires
        (TakeWhile1 { pred }).accepts(input, offset, r),
        r is Success,
    ensures
        (TakeWhile0 { pred }).accepts(input, offset, r),
        r->length > 0,
{
}

/// On an element, exactly one of `elm_of(set)` and `none_of(set)` succeeds.
pub proof fn law_one_of_none_of_complementary<'a, I: 'a + Copy, S: ElementSet<I> + ?Sized>(
    set: &S,
    input: Seq<I>,
    offset: int,
    r1: ParseResult<I>,
    r2: ParseResult<I>,
)
    requires
        0 <= offset < input.len(),
        (ElmPred { pred: OneOf(set) }).accepts(input, offset, r1),
        (ElmPred { pred: NoneOf(set) }).accepts(input, offset, r2),
    ensures
        r1 is Success <==> r2 is Failure,
{
}

/// A successful repetition read at least the lower end `Included(min)` of its range.
pub proof fn law_repeat_at_least_min<'a, I: 'a, P: ParserRunner<'a, I>, S: ParserRunner<'a, I>>(
    p: RepSep<P, S>,
    input: Seq<I>,
    offset: int,
    r: ParseResult<Vec<P::Output>>,
)
    requires
        p.accepts(input, offset, r),
        r is Success,
        p.range.start is Included,
    ensures
        r->value@.len() >= p.range.start->Included_0,
{
}

proof fn lemma_rounds_bounded<'a, I: 'a, P: ParserRunner<'a, I>, S: ParserRunner<'a, I>>(
    p: P,
    sep: Option<S>,
    c: int,
    input: Seq<I>,
    cur: int,
    values: Seq<P::Output>,
    total: int,
    out: (Seq<P::Output>, int),
)
    requires
        rep_rounds(p, sep, Some(c), input, cur, values, total, out),
        values.len() <= if c > 1 { c } else { 1 },
    ensures
        out.0.len() <= if c > 1 { c } else { 1 },
    decreases c - values.len(),
{
    lemma_rep_rounds_unfold(p, sep, Some(c), input, cur, values, total, out);
    if values.len() < c {
        let (ls, ri) = choose|ls: int, ri: ParseResult<P::Output>| {
            &&& (match sep {
                Some(s) => exists|rs: ParseResult<S::Output>| #[trigger] s.accepts(input, cur, rs) && rs is Success
                    && rs->length == ls,
                None => ls == 0,
            })
            &&& #[trigger] p.accepts(input, cur + ls, ri)
            &&& match ri {
                ParseResult::Failure { .. } => out == (values, total + ls),
                ParseResult::Success { value, length } => {
                    let nv = values.push(value);
                    let step = ls + length;
                    if cur + step > input.len() || step < 0 {
                        false
                    } else if Some(c) is None && step == 0 {
                        out == (nv, total + step)
                    } else {
                        rep_rounds(p, sep, Some(c), input, cur + step, nv, total + step, out)
                    }
                },
            }
        };
        if ri is Success && !(sep matches Some(s) && out == (values, total)) {
            let step = ls + ri->length;
            lemma_rounds_bounded(p, sep, c, input, cur + step, values.push(ri->value), total + step, out);
        }
    }
}

/// A repetition with an upper end reads at most that many items (at least the one
/// it always tries first).
pub proof fn law_repeat_at_most_max<'a, I: 'a, P: ParserRunner<'a, I>, S: ParserRunner<'a, I>>(
    p: RepSep<P, S>,
    input: Seq<I>,
    offset: int,
    r: ParseResult<Vec<P::Output>>,
)
    requires
        p.accepts(input, offset, r),
        r is Success,
        cap_of(p.range.end) is Some,
    ensures
        r->value@.len() <= if cap_of(p.range.end)->0 > 1 { cap_of(p.range.end)->0 } else { 1 },
{
    let c = cap_of(p.range.end)->0;
    let out = choose|out: (Seq<P::Output>, int)| #[trigger] rep_outcome(
        p.parser,
        p.separator,
        cap_of(p.range.end),
        input,
        offset,
        out,
    ) && if p.range.start is Included && out.0.len() < p.range.start->Included_0 {
        super::result::is_mismatch(
            r,
            super::transform::last_offset_of(offset + out.1),
            out.1,
            super::repeat::too_few_message(p.range.start->Included_0 as nat, out.0.len()),
        )
    } else {
        r matches ParseResult::Success { value, length } && value@ == out.0 && length == out.1
    };
    let r0 = choose|r0: ParseResult<P::Output>| #[trigger] p.parser.accepts(input, offset, r0) && match r0 {
        ParseResult::Failure { .. } => out == (Seq::<P::Output>::empty(), 0int),
        ParseResult::Success { value, length } => offset + length <= input.len() && rep_rounds(
            p.parser,
            p.separator,
            cap_of(p.range.end),
            input,
            offset + length,
            seq![value],
            length as int,
            out,
        ),
    };
    if r0 is Success {
        lemma_rounds_bounded(
            p.parser,
            p.separator,
            c,
            input,
            offset + r0->length,
            seq![r0->value],
            r0->length as int,
            out,
        );
    }
}

/// The whole behaviour of a repetition: it reads items as `rep_outcome` describes
/// (the first run of the parser, then rounds of separator and parser until one
/// fails, the cap is reached, or, without a cap, a round consumes nothing), never
/// more items than its cap (at least the one it always tries first), and
/// succeeds with exactly those items and their total length unless it read fewer
/// than the lower end `Included(min)`; then it fails uncommitted.
pub proof fn law_repeat_reads_then_checks_the_minimum<'a, I: 'a, P: ParserRunner<'a, I>, S: ParserRunner<'a, I>>(
    p: RepSep<P, S>,
    input: Seq<I>,
    offset: int,
    r: ParseResult<Vec<P::Output>>,
)
    requires
        p.accepts(input, offset, r),
    ensures
        exists|out: (Seq<P::Output>, int)| #[trigger] rep_outcome(
            p.parser,
            p.separator,
            cap_of(p.range.end),
            input,
            offset,
            out,
        ) && {
            &&& (cap_of(p.range.end) matches Some(c) ==> out.0.len() <= if c > 1 { c } else { 1 })
            &&& (r is Success <==> !(p.range.start is Included && out.0.len() < p.range.start->Included_0))
            &&& (r matches ParseResult::Success { value, length } ==> value@ == out.0 && length == out.1)
            &&& (r matches ParseResult::Failure { committed_status, .. } ==> committed_status
                == CommittedStatus::Uncommitted)
        },
{
    let out = choose|out: (Seq<P::Output>, int)| #[trigger] rep_outcome(
        p.parser,
        p.separator,
        cap_of(p.range.end),
        input,
        offset,
        out,
    ) && if p.range.start is Included && out.0.len() < p.range.start->Included_0 {
        super::result::is_mismatch(
            r,
            super::transform::last_offset_of(offset + out.1),
            out.1,
            super::repeat::too_few_message(p.range.start->Included_0 as nat, out.0.len()),
        )
    } else {
        r matches ParseResult::Success { value, length } && value@ == out.0 && length == out.1
    };
    let r0 = choose|r0: ParseResult<P::Output>| #[trigger] p.parser.accepts(input, offset, r0) && match r0 {
        ParseResult::Failure { .. } => out == (Seq::<P::Output>::empty(), 0int),
        ParseResult::Success { value, length } => offset + length <= input.len() && rep_rounds(
            p.parser,
            p.separator,
            cap_of(p.range.end),
            input,
            offset + length,
            seq![value],
            length as int,
            out,
        ),
    };
    if r0 is Success && cap_of(p.range.end) is Some {
        lemma_rounds_bounded(
            p.parser,
            p.separator,
            cap_of(p.range.end)->0,
            input,
            offset + r0->length,
            seq![r0->value],
            r0->length as int,
            out,
        );
    }
}

/// Where `tag` matches, `tag_no_case` with the same text matches too, consuming as
/// much.
pub proof fn law_tag_within_tag_no_case<'a, I: Element + 'a>(
    t: Tag<I>,
    u: TagNoCase<I>,
    input: Seq<I>,
    offset: int,
    r1: ParseResult<String>,
    r2: ParseResult<String>,
)
    requires
        u.text@ == t.text@,
        t.accepts(input, offset, r1),
        u.accepts(input, offset, r2),
        r1 is Success,
    ensures
        r2 is Success,
        r2->length == r1->length,
{
    let n = t.text@.len();
    let found = chars_of_elements(input.subrange(offset, offset + n));
    assert(found == t.text@);
    assert(lowercase_chars(found) == lowercase_chars(u.text@));
}

/// Making a result uncommitted twice is making it uncommitted once; adding a
/// length of zero changes nothing.
pub proof fn law_result_adjustments<A>(r: ParseResult<A>)
    ensures
        spec_with_uncommitted(spec_with_uncommitted(r)) == spec_with_uncommitted(r),
        spec_with_add_length(r, 0) == r,
{
}

/// The element classes nest: a digit other than `0` is a digit, an octal digit is
/// a digit, a digit is a hexadecimal digit and a letter-or-digit, a letter is a
/// letter-or-digit, and a space or tab is a space of the wider class.
pub proof fn law_element_classes_nest<I: Element>(e: I)
    ensures
        code_is_digit_1_9(e.code()) ==> code_is_digit(e.code()),
        code_is_oct_digit(e.code()) ==> code_is_digit(e.code()),
        code_is_digit(e.code()) ==> code_is_hex_digit(e.code()),
        code_is_digit(e.code()) ==> code_is_alpha_digit(e.code()),
        code_is_alpha(e.code()) ==> code_is_alpha_digit(e.code()),
        code_is_space(e.code()) ==> code_is_multi_space(e.code()),
{
}

/// A regular-expression parser succeeds exactly when the first match in the rest
/// of the input (read as characters) starts at the offset; it then gives the
/// matched text, whose UTF-8 encoding ends at the match's end, consuming one
/// element per matched character. Every failure is uncommitted.
pub proof fn law_regex_reads_a_match_at_the_offset<'a, I: Element + 'a>(
    p: RegexParser<I>,
    input: Seq<I>,
    offset: int,
    r: ParseResult<String>,
)
    requires
        p.accepts(input, offset, r),
    ensures
        r is Success <==> (regex_first_match(p.pattern@, chars_of_elements(input.subrange(offset, input.len() as int)))
            matches Some(m) && m.0 == 0),
        r matches ParseResult::Success { value, length } ==> {
            &&& value@ == chars_of_elements(input.subrange(offset, input.len() as int)).take(length as int)
            &&& regex_first_match(p.pattern@, chars_of_elements(input.subrange(offset, input.len() as int))) matches Some(
                m,
            ) && byte_len(value@) == m.1
        },
        r matches ParseResult::Failure { committed_status, .. } ==> committed_status == CommittedStatus::Uncommitted,
{
}

/// The one-element class parsers (`elm_digit`, `elm_hex_digit`, `elm_alpha` and
/// the others) take the element at the offset exactly when its code is in the
/// class's ASCII ranges: space and tab for `Space`; those and line feed and
/// carriage return for `MultiSpace`; `A`..`Z` and `a`..`z` for `Alpha`; `0`..`9`
/// for `Digit`; `1`..`9` for `Digit19`; `0`..`9`, `A`..`F` and `a`..`f` for
/// `HexDigit`; `0`..`8` for `OctDigit`; letters and digits for `AlphaDigit`. A
/// success gives that element and consumes it.
pub proof fn law_element_classes_take_their_ascii_ranges<'a, I: Element + 'a>(
    p: ElmPred<ClassOf<I>>,
    input: Seq<I>,
    offset: int,
    r: ParseResult<I>,
)
    requires
        p.accepts(input, offset, r),
        0 <= offset < input.len(),
    ensures
        r is Success <==> ({
            let c = input[offset].code();
            match p.pred.class {
                ElementClass::Space => c == 0x20 || c == 0x09,
                ElementClass::MultiSpace => c == 0x20 || c == 0x09 || c == 0x0a || c == 0x0d,
                ElementClass::Alpha => (0x41 <= c <= 0x5a) || (0x61 <= c <= 0x7a),
                ElementClass::AlphaDigit => (0x30 <= c <= 0x39) || (0x41 <= c <= 0x5a) || (0x61 <= c <= 0x7a),
                ElementClass::Digit => 0x30 <= c <= 0x39,
                ElementClass::Digit19 => 0x31 <= c <= 0x39,
                ElementClass::HexDigit => (0x30 <= c <= 0x39) || (0x41 <= c <= 0x46) || (0x61 <= c <= 0x66),
                ElementClass::OctDigit => 0x30 <= c <= 0x38,
            }
        }),
        r matches ParseResult::Success { value, length } ==> value == input[offset] && length == 1,
{
}

/// On characters the class parsers take exactly the characters of their ranges;
/// in particular `elm_hex_digit` takes `0`..`9`, `A`..`F` and `a`..`f` and
/// `elm_digit` takes `0`..`9`.
pub proof fn law_character_classes_take_their_characters<'a>(
    p: ElmPred<ClassOf<char>>,
    input: Seq<char>,
    offset: int,
    r: ParseResult<char>,
)
    requires
        p.accepts(input, offset, r),
        0 <= offset < input.len(),
    ensures
        p.pred.class == ElementClass::HexDigit ==> (r is Success <==> (('0' as u32 <= input[offset] as u32 <= '9' as u32) || ('A' as u32 <= input[offset] as u32 <= 'F' as u32) || ('a' as u32 <= input[offset] as u32 <= 'f' as u32))),
        p.pred.class == ElementClass::Digit ==> (r is Success <==> ('0' as u32 <= input[offset] as u32 <= '9' as u32)),
        p.pred.class == ElementClass::OctDigit ==> (r is Success <==> ('0' as u32 <= input[offset] as u32 <= '8' as u32)),
        p.pred.class == ElementClass::Alpha ==> (r is Success <==> (('A' as u32 <= input[offset] as u32 <= 'Z' as u32) || ('a' as u32 <= input[offset] as u32 <= 'z' as u32))),
{
    law_element_classes_take_their_ascii_ranges(p, input, offset, r);
    let ch = input[offset];
    assert(<char as Element>::code(&ch) == (ch as u32) as int);
}

} // verus!
