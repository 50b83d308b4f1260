//! Repetition of a parser, with an optional separator and a range of counts.
use vstd::prelude::*;
use super::element::digit_char;
use super::error::ParseError;
use super::result::{ParseResult, is_mismatch};
use super::runner::ParserRunner;
use super::transform::last_offset_of;
use crate::utils::range::{Bound, CountRange, RangeArgument};

verus! {

/// The decimal text of `n`, as `{}` writes it.
pub open spec fn decimal_text(n: nat) -> Seq<char>
    decreases n,
{
    if n < 10 {
        seq![digit_char(n as int)]
    } else {
        decimal_text(n / 10) + seq![digit_char((n % 10) as int)]
    }
}

/// The message of a repetition that stopped after `found` items, fewer than `min`.
pub open spec fn too_few_message(min: nat, found: nat) -> Seq<char> {
    "expect repeat at least "@ + decimal_text(min) + " times, found "@ + decimal_text(found) + " times"@
}

/// `format!("expect repeat at least {} times, found {} times", min, found)`.
#[verifier::external_body]
fn too_few(min: usize, found: usize) -> (s: String)
    ensures
        s@ == too_few_message(min as nat, found as nat),
{
    format!("expect repeat at least {} times, found {} times", min, found)
}

/// The largest number of items a repetition reads with the upper end `end`, or
/// `None` when it has none.
pub open spec fn cap_of(end: Bound) -> Option<int> {
    match end {
        Bound::Included(m) => Some(m as int),
        Bound::Excluded(m) => Some(if m > 0 { m - 1 } else { 0 }),
        Bound::Unbounded => None,
    }
}

/// One more round of a repetition that has read `values` (of total length
/// `total`) and stands at `cur` may end with `out`: at the cap it stops; else the
/// separator (if any) and then the parser run, and the repetition stops at the
/// first failure (keeping a separator's length) or goes on. Without a cap it also
/// stops after a round that consumed nothing.
#[verifier::opaque]
pub open spec fn rep_rounds<'a, I: 'a, P: ParserRunner<'a, I>, S: ParserRunner<'a, I>>(
    p: P,
    sep: Option<S>,
    cap: Option<int>,
    input: Seq<I>,
    cur: int,
    values: Seq<P::Output>,
    total: int,
    out: (Seq<P::Output>, int),
) -> bool
    decreases (if cap is Some { cap->0 - values.len() } else { input.len() - cur }),
{
    if cap matches Some(c) && values.len() >= c {
        out == (values, total)
    } else {
        let sep_fails = sep matches Some(s) && exists|rs: ParseResult<S::Output>| #[trigger] s.accepts(input, cur, rs)
            && rs is Failure;
        ||| (sep_fails && out == (values, total))
        ||| exists|ls: int, ri: ParseResult<P::Output>| {
            &&& (match sep {
                Some(s) => exists|rs: ParseResult<S::Output>| #[trigger] s.accepts(input, cur, rs) && rs is Success
                    && rs->length == ls,
                None => ls == 0,
            })
            &&& #[trigger] p.accepts(input, cur + ls, ri)
            &&& match ri {
                ParseResult::Failure { .. } => out == (values, total + ls),
                ParseResult::Success { value, length } => {
                    let nv = values.push(value);
                    let step = ls + length;
                    if cur + step > input.len() || step < 0 {
                        false
                    } else if cap is None && step == 0 {
                        out == (nv, total + step)
                    } else {
                        rep_rounds(p, sep, cap, input, cur + step, nv, total + step, out)
                    }
                },
            }
        }
    }
}

/// One round of `rep_rounds`, unfolded.
pub proof fn lemma_rep_rounds_unfold<'a, I: 'a, P: ParserRunner<'a, I>, S: ParserRunner<'a, I>>(
    p: P,
    sep: Option<S>,
    cap: Option<int>,
    input: Seq<I>,
    cur: int,
    values: Seq<P::Output>,
    total: int,
    out: (Seq<P::Output>, int),
)
    ensures
        rep_rounds(p, sep, cap, input, cur, values, total, out) == if cap matches Some(c) && values.len() >= c {
            out == (values, total)
        } else {
            let sep_fails = sep matches Some(s) && exists|rs: ParseResult<S::Output>| #[trigger] s.accepts(input, cur, rs)
                && rs is Failure;
            ||| (sep_fails && out == (values, total))
            ||| exists|ls: int, ri: ParseResult<P::Output>| {
                &&& (match sep {
                    Some(s) => exists|rs: ParseResult<S::Output>| #[trigger] s.accepts(input, cur, rs) && rs is Success
                        && rs->length == ls,
                    None => ls == 0,
                })
                &&& #[trigger] p.accepts(input, cur + ls, ri)
                &&& match ri {
                    ParseResult::Failure { .. } => out == (values, total + ls),
                    ParseResult::Success { value, length } => {
                        let nv = values.push(value);
                        let step = ls + length;
                        if cur + step > input.len() || step < 0 {
                            false
                        } else if cap is None && step == 0 {
                            out == (nv, total + step)
                        } else {
                            rep_rounds(p, sep, cap, input, cur + step, nv, total + step, out)
                        }
                    },
                }
            }
        },
{
    reveal_with_fuel(rep_rounds, 1);
}

/// The items a repetition from `offset` may read and their total length: none when
/// the first run fails, else the first item and the rounds after it.
pub open spec fn rep_outcome<'a, I: 'a, P: ParserRunner<'a, I>, S: ParserRunner<'a, I>>(
    p: P,
    sep: Option<S>,
    cap: Option<int>,
    input: Seq<I>,
    offset: int,
    out: (Seq<P::Output>, int),
) -> bool {
    exists|r0: ParseResult<P::Output>| #[trigger] p.accepts(input, offset, r0) && match r0 {
        ParseResult::Failure { .. } => out == (Seq::<P::Output>::empty(), 0int),
        ParseResult::Success { value, length } => offset + length <= input.len() && rep_rounds(
            p,
            sep,
            cap,
            input,
            offset + length,
            seq![value],
            length as int,
            out,
        ),
    }
}

/// Every ending of the rounds from this state is an ending of the repetition.
spec fn rounds_lead_back<'a, I: 'a, P: ParserRunner<'a, I>, S: ParserRunner<'a, I>>(
    p: P,
    sep: Option<S>,
    cap: Option<int>,
    input: Seq<I>,
    offset: int,
    cur: int,
    values: Seq<P::Output>,
    total: int,
) -> bool {
    forall|out: (Seq<P::Output>, int)| #![trigger rep_rounds(p, sep, cap, input, cur, values, total, out)]
        rep_rounds(p, sep, cap, input, cur, values, total, out) ==> rep_outcome(p, sep, cap, input, offset, out)
}

proof fn lemma_lead_back<'a, I: 'a, P: ParserRunner<'a, I>, S: ParserRunner<'a, I>>(
    p: P,
    sep: Option<S>,
    cap: Option<int>,
    input: Seq<I>,
    offset: int,
    cur: int,
    values: Seq<P::Output>,
    total: int,
    out: (Seq<P::Output>, int),
)
    requires
        rounds_lead_back(p, sep, cap, input, offset, cur, values, total),
        rep_rounds(p, sep, cap, input, cur, values, total, out),
    ensures
        rep_outcome(p, sep, cap, input, offset, out),
{
}

/// Runs the parser repeatedly, with `separator` (if any) between items, as many
/// times as it succeeds up to the upper end of `range`; fails when it read fewer
/// items than the lower end (`Included`) of `range`. Failures of the items and of
/// the separator end the repetition; without an upper end, so does a round that
/// consumes nothing. (Repeating such a round would never end; here the
/// repetition stops after it, with that round's item counted.)
pub struct RepSep<P, S> {
    pub parser: P,
    pub range: CountRange,
    pub separator: Option<S>,
}

impl<'a, I: 'a, P: ParserRunner<'a, I>, S: ParserRunner<'a, I>> ParserRunner<'a, I> for RepSep<P, S> {
    type Output = Vec<P::Output>;

    open spec fn inv(&self) -> bool {
        &&& self.parser.inv()
        &&& self.separator matches Some(s) ==> s.inv()
    }

    /// The items read and their total length, as `rep_outcome` describes them: a
    /// success, unless the lower end `Included(min)` exceeds the number of items,
    /// which gives an uncommitted mismatch at the offset before the end of what was
    /// read, with that length.
    open spec fn accepts(&self, input: Seq<I>, offset: int, r: ParseResult<Vec<P::Output>>) -> bool {
        exists|out: (Seq<P::Output>, int)| #[trigger] rep_outcome(
            self.parser,
            self.separator,
            cap_of(self.range.end),
            input,
            offset,
            out,
        ) && if self.range.start is Included && out.0.len() < self.range.start->Included_0 {
            is_mismatch(
                r,
                last_offset_of(offset + out.1),
                out.1,
                too_few_message(self.range.start->Included_0 as nat, out.0.len()),
            )
        } else {
            r matches ParseResult::Success { value, length } && value@ == out.0 && length == out.1
        }
    }

    fn run(&self, input: &'a [I], offset: usize) -> (r: ParseResult<Vec<P::Output>>) {
        let len = input.len();
        let ghost cap = cap_of(self.range.end);
        let ghost sep = self.separator;
        let ghost p = self.parser;
        let mut items: Vec<P::Output> = Vec::new();
        let mut total: usize = 0;
        let r0 = self.parser.run(input, offset);
        let ghost g0 = r0;
        proof {
            assert(self.parser.accepts(input@, offset as int, g0));
        }
        match r0 {
            ParseResult::Failure { .. } => {
                proof {
                    assert(rep_outcome(p, sep, cap, input@, offset as int, (items@, total as int)));
                }
            },
            ParseResult::Success { value, length } => {
                items.push(value);
                total = length;
                let mut cur = offset + length;
                let end = self.range.end();
                let limit: Option<usize> = match end {
                    Bound::Included(m) => Some(m),
                    Bound::Excluded(m) => Some(
                        if m > 0 {
                            m - 1
                        } else {
                            0
                        },
                    ),
                    Bound::Unbounded => None,
                };
                proof {
                    assert(items@ =~= seq![g0->value]);
                    assert forall|out: (Seq<P::Output>, int)| #[trigger] rep_rounds(p, sep, cap, input@, cur as int, items@, total as int, out)
                        implies rep_outcome(p, sep, cap, input@, offset as int, out) by {
                        assert(p.accepts(input@, offset as int, g0));
                    }
                }
                loop
                    invariant_except_break
                        rounds_lead_back(p, sep, cap, input@, offset as int, cur as int, items@, total as int),
                    invariant
                        self.inv(),
                        p == self.parser,
                        sep == self.separator,
                        cap == cap_of(self.range.end),
                        limit matches Some(c) ==> cap == Some(c as int),
                        limit is None ==> cap is None,
                        len == input@.len(),
                        offset <= cur <= len,
                        total == cur - offset,
                    ensures
                        rep_outcome(p, sep, cap, input@, offset as int, (items@, total as int)),
                    decreases (if cap is Some { cap->0 - items@.len() } else { len - cur }),
                {
                    let ghost cur0 = cur as int;
                    let ghost items0 = items@;
                    let ghost total0 = total as int;
                    if let Some(c) = limit {
                        if items.len() >= c {
                            proof {
                                let out = (items0, total0);
                                lemma_rep_rounds_unfold(p, sep, cap, input@, cur0, items0, total0, out);
                                lemma_lead_back(p, sep, cap, input@, offset as int, cur0, items0, total0, out);
                            }
                            break;
                        }
                    }
                    let mut sep_len: usize = 0;
                    let ghost mut gs: Option<ParseResult<S::Output>> = None;
                    if let Some(s) = &self.separator {
                        let rs = s.run(input, cur);
                        let ghost grs = rs;
                        proof {
                            assert(s.accepts(input@, cur0, grs));
                            gs = Some(grs);
                        }
                        match rs {
                            ParseResult::Success { length: ls, .. } => {
                                sep_len = ls;
                            },
                            ParseResult::Failure { .. } => {
                                proof {
                                    let out = (items0, total0);
                                    lemma_rep_rounds_unfold(p, sep, cap, input@, cur0, items0, total0, out);
                                    lemma_lead_back(p, sep, cap, input@, offset as int, cur0, items0, total0, out);
                                }
                                break;
                            },
                        }
                    }
                    let ri = self.parser.run(input, cur + sep_len);
                    let ghost gri = ri;
                    proof {
                        assert(p.accepts(input@, cur0 + sep_len, gri));
                    }
                    match ri {
                        ParseResult::Failure { .. } => {
                            total = total + sep_len;
                            cur = cur + sep_len;
                            proof {
                                let out = (items0, total0 + sep_len);
                                lemma_rep_rounds_unfold(p, sep, cap, input@, cur0, items0, total0, out);
                                assert(match sep {
                                    Some(s) => exists|rs: ParseResult<S::Output>| #[trigger] s.accepts(input@, cur0, rs)
                                        && rs is Success && rs->length == sep_len as int,
                                    None => sep_len as int == 0,
                                });
                                lemma_lead_back(p, sep, cap, input@, offset as int, cur0, items0, total0, out);
                            }
                            break;
                        },
                        ParseResult::Success { value, length } => {
                            let step = sep_len + length;
                            items.push(value);
                            total = total + step;
                            cur = cur + step;
                            if limit.is_none() && step == 0 {
                                proof {
                                    let out = (items@, total as int);
                                    lemma_rep_rounds_unfold(p, sep, cap, input@, cur0, items0, total0, out);
                                    assert(match sep {
                                        Some(s) => exists|rs: ParseResult<S::Output>| #[trigger] s.accepts(input@, cur0, rs)
                                            && rs is Success && rs->length == sep_len as int,
                                        None => sep_len as int == 0,
                                    });
                                    lemma_lead_back(p, sep, cap, input@, offset as int, cur0, items0, total0, out);
                                }
                                break;
                            }
                            proof {
                                assert forall|out: (Seq<P::Output>, int)| #[trigger] rep_rounds(p, sep, cap, input@, cur as int, items@, total as int, out)
                                    implies rep_outcome(p, sep, cap, input@, offset as int, out) by {
                                    lemma_rep_rounds_unfold(p, sep, cap, input@, cur0, items0, total0, out);
                                    assert(match sep {
                                        Some(s) => exists|rs: ParseResult<S::Output>| #[trigger] s.accepts(input@, cur0, rs)
                                            && rs is Success && rs->length == sep_len as int,
                                        None => sep_len as int == 0,
                                    });
                                    assert(items@ == items0.push(gri->value));
                                    lemma_lead_back(p, sep, cap, input@, offset as int, cur0, items0, total0, out);
                                }
                            }
                        },
                    }
                }
            },
        }
        let start = self.range.start();
        if let Bound::Included(min) = start {
            if items.len() < min {
                let end = offset + total;
                let at = if end > 0 {
                    end - 1
                } else {
                    0
                };
                return ParseResult::failed_with_uncommitted(
                    ParseError::of_mismatch(at, total, too_few(min, items.len())),
                );
            }
        }
        ParseResult::successful(items, total)
    }
}

} // verus!
