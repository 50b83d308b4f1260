//! Properties of the `Parser` combinators that hold of every parse.
use vstd::prelude::*;
use crate::combinator::attempt::Attempt;
use crate::combinator::cut::Cut;
use crate::combinator::many::{Many, many_steps};
use crate::combinator::map::Mapped;
use crate::combinator::optional::Optional;
use crate::combinator::or::Or;
use crate::combinator::zip::Zip;
use crate::combinator::zip_left::ZipLeft;
use crate::combinator::zip_right::ZipRight;
use crate::fail::{Fail, PResult};
use crate::input::Input;
use crate::parser::Parser;
use crate::str_input::StrInput;
use crate::text::take_while0::TakeWhile0;
use crate::text::take_while1::TakeWhile1;
use crate::text::is_longest_run;
use crate::text::identifier::{Identifier, is_ident_prefix, is_ident_start};
use crate::text::escaped::Escaped;
use crate::text::quoted::{decode_quoted, lemma_decode_closed_len, lemma_decode_plain};
use crate::text::quoted_string_cow::{CowStr, QuotedStringCow};

verus! {

/// `attempt` never reports `Cut`: a `Cut` of the inner parser becomes `Backtrack`
/// and the input is rewound.
pub proof fn law_attempt_never_cuts<I: Input, P: Parser<I>>(p: Attempt<P>, before: I, after: I, r: PResult<P::Output, P::Error>)
    requires
        p.spec_parse(before, after, r),
    ensures
        !(r matches Err(Fail::Cut(_))),
{
}

/// `cut` never reports `Backtrack`: a `Backtrack` of the inner parser becomes `Cut`,
/// with the same error.
pub proof fn law_cut_never_backtracks<I: Input, P: Parser<I>>(p: Cut<P>, before: I, after: I, r: PResult<P::Output, P::Error>)
    requires
        p.spec_parse(before, after, r),
    ensures
        !(r matches Err(Fail::Backtrack(_))),
{
}

/// `optional` never reports `Backtrack`: it becomes `None`, consuming nothing.
pub proof fn law_optional_never_backtracks<I: Input, P: Parser<I>>(
    p: Optional<P>,
    before: I,
    after: I,
    r: PResult<Option<P::Output>, P::Error>,
)
    requires
        p.spec_parse(before, after, r),
    ensures
        !(r matches Err(Fail::Backtrack(_))),
        r == Ok::<Option<P::Output>, Fail<P::Error>>(None) ==> after == before,
{
}

/// `or` tries the right parser only after a `Backtrack` of the left one: a
/// success or `Cut` of the left parser is the result, and a `Backtrack` restarts
/// the right parser from the same input.
pub proof fn law_or_recovers_only_from_backtrack<I: Input, P1: Parser<I>, P2: Parser<I, Output = P1::Output, Error = P1::Error>>(
    p: Or<P1, P2>,
    before: I,
    after: I,
    r: PResult<P1::Output, P1::Error>,
)
    requires
        p.spec_parse(before, after, r),
    ensures
        exists|mid: I, r1: PResult<P1::Output, P1::Error>| #[trigger] p.left.spec_parse(before, mid, r1) && if r1 is Err
            && r1->Err_0 is Backtrack {
            p.right.spec_parse(before, after, r)
        } else {
            r == r1 && after == mid
        },
{
}

/// `many0` fails only with `Cut` or `ZeroProgress`, never with `Backtrack`; on
/// success it consumes what its items consumed.
pub proof fn law_many_never_backtracks<I: Input, P: Parser<I>>(
    p: Many<P>,
    before: I,
    after: I,
    r: PResult<Vec<P::Output>, P::Error>,
)
    requires
        p.spec_parse(before, after, r),
    ensures
        !(r matches Err(Fail::Backtrack(_))),
{
    let n = choose|n: nat| #[trigger] many_steps(p.parser, n, before, after, Seq::empty(), r);
    lemma_many_steps_never_backtrack(p.parser, n, before, after, Seq::empty(), r);
}

proof fn lemma_many_steps_never_backtrack<I: Input, P: Parser<I>>(
    p: P,
    n: nat,
    s: I,
    after: I,
    acc: Seq<P::Output>,
    r: PResult<Vec<P::Output>, P::Error>,
)
    requires
        many_steps(p, n, s, after, acc, r),
    ensures
        !(r matches Err(Fail::Backtrack(_))),
    decreases n,
{
    let (mid, ri) = choose|mid: I, ri: PResult<P::Output, P::Error>|
        #![trigger p.spec_parse(s, mid, ri)]
        p.spec_parse(s, mid, ri) && s.advanced(mid) && match ri {
            Ok(v) => if mid.spec_offset() == s.spec_offset() {
                n == 0 && after == mid && r == Err::<Vec<P::Output>, Fail<P::Error>>(Fail::ZeroProgress)
            } else if n == 0 {
                false
            } else {
                many_steps(p, (n - 1) as nat, mid, after, acc.push(v), r)
            },
            Err(Fail::Backtrack(_)) => n == 0 && after == s && (r matches Ok(vs) && vs@ == acc),
            Err(e) => n == 0 && after == mid && r == Err::<Vec<P::Output>, Fail<P::Error>>(e),
        };
    if ri is Ok && mid.spec_offset() != s.spec_offset() {
        lemma_many_steps_never_backtrack(p, (n - 1) as nat, mid, after, acc.push(ri->Ok_0), r);
    }
}

/// Mapping twice maps with the first function and then the second: a success of
/// the parser becomes `g(f(v))`, and its failure is kept.
pub proof fn law_map_map<I: Input, P: Parser<I>, O1, O2, F: Fn(P::Output) -> O1, G: Fn(O1) -> O2>(
    p: Mapped<Mapped<P, F>, G>,
    before: I,
    after: I,
    r: PResult<O2, P::Error>,
)
    requires
        p.spec_parse(before, after, r),
    ensures
        exists|ri: PResult<P::Output, P::Error>| #[trigger] p.parser.parser.spec_parse(before, after, ri) && match ri {
            Ok(v) => exists|o1: O1, o2: O2| #[trigger] call_ensures(p.parser.f, (v,), o1) && #[trigger] call_ensures(p.f, (o1,), o2)
                && r == Ok::<O2, Fail<P::Error>>(o2),
            Err(e) => r == Err::<O2, Fail<P::Error>>(e),
        },
{
    let r1 = choose|r1: PResult<O1, P::Error>| #[trigger] p.parser.spec_parse(before, after, r1) && match r1 {
        Ok(v) => exists|o: O2| #[trigger] call_ensures(p.f, (v,), o) && r == Ok::<O2, Fail<P::Error>>(o),
        Err(e) => r == Err::<O2, Fail<P::Error>>(e),
    };
    let ri = choose|ri: PResult<P::Output, P::Error>| #[trigger] p.parser.parser.spec_parse(before, after, ri) && match ri {
        Ok(v) => exists|o: O1| #[trigger] call_ensures(p.parser.f, (v,), o) && r1 == Ok::<O1, Fail<P::Error>>(o),
        Err(e) => r1 == Err::<O1, Fail<P::Error>>(e),
    };
    if ri is Ok {
        let o1 = r1->Ok_0;
        assert(call_ensures(p.parser.f, (ri->Ok_0,), o1));
    }
}

/// Whatever `take_while1` reads, `take_while0` with the same predicate reads too;
/// `take_while1` only adds a failure for the empty run.
pub proof fn law_take_while1_within_take_while0<'a, F: Fn(char) -> bool>(
    f: F,
    before: StrInput<'a>,
    after: StrInput<'a>,
    s: &'a str,
)
    requires
        TakeWhile1(f).spec_parse(before, after, Ok::<&'a str, Fail<String>>(s)),
    ensures
        TakeWhile0(f).spec_parse(before, after, Ok::<&'a str, Fail<crate::error::ParseError>>(s)),
        s@.len() > 0,
{
    let p1 = TakeWhile1(f);
    let p0 = TakeWhile0(f);
    let r1 = Ok::<&'a str, Fail<String>>(s);
    let r0 = Ok::<&'a str, Fail<crate::error::ParseError>>(s);
    assert(p1.spec_parse(before, after, r1));
    let j = choose|j: int| #[trigger] is_longest_run(f, before.rest(), j) && if j == 0 {
        &&& after == before
        &&& r1 matches Err(Fail::Backtrack(m)) && m@ == "take_while1: expected at least one matching character"@
    } else {
        &&& r1 matches Ok(s) && s@ == before.rest().take(j)
        &&& after == before.at_index(before.index() + j)
    };
    assert(is_longest_run(p0.0, before.rest(), j));
    assert(p0.spec_parse(before, after, r0));
}

/// `zip_left` keeps the first value of `zip`: every outcome of `zip_left` is an
/// outcome of `zip` on the same input, ending in the same state, whose pair starts
/// with the kept value; the failures are the same.
pub proof fn law_zip_left_is_first_of_zip<I: Input, P1: Parser<I>, P2: Parser<I, Error = P1::Error>>(
    p1: P1,
    p2: P2,
    before: I,
    after: I,
    r: PResult<P1::Output, P1::Error>,
)
    requires
        (ZipLeft { first: p1, second: p2 }).spec_parse(before, after, r),
    ensures
        exists|rz: PResult<(P1::Output, P2::Output), P1::Error>| #[trigger] (Zip { first: p1, second: p2 }).spec_parse(before, after, rz)
            && match r {
            Ok(a) => rz matches Ok(pair) && pair.0 == a,
            Err(e) => rz == Err::<(P1::Output, P2::Output), Fail<P1::Error>>(e),
        },
{
    let (mid, r1) = choose|mid: I, r1: PResult<P1::Output, P1::Error>| #[trigger] p1.spec_parse(before, mid, r1)
        && before.advanced(mid) && match r1 {
        Err(e) => after == mid && r == Err::<P1::Output, Fail<P1::Error>>(e),
        Ok(a) => exists|r2: PResult<P2::Output, P1::Error>| #[trigger] p2.spec_parse(mid, after, r2) && match r2 {
            Ok(b) => r == Ok::<P1::Output, Fail<P1::Error>>(a),
            Err(e) => r == Err::<P1::Output, Fail<P1::Error>>(e),
        },
    };
    let z = Zip { first: p1, second: p2 };
    match r1 {
        Err(e) => {
            let rz = Err::<(P1::Output, P2::Output), Fail<P1::Error>>(e);
            assert(z.spec_parse(before, after, rz));
        },
        Ok(a) => {
            let r2 = choose|r2: PResult<P2::Output, P1::Error>| #[trigger] p2.spec_parse(mid, after, r2) && match r2 {
                Ok(b) => r == Ok::<P1::Output, Fail<P1::Error>>(a),
                Err(e) => r == Err::<P1::Output, Fail<P1::Error>>(e),
            };
            match r2 {
                Ok(b) => {
                    let rz = Ok::<(P1::Output, P2::Output), Fail<P1::Error>>((a, b));
                    assert(p2.spec_parse(mid, after, r2));
                    assert(z.spec_parse(before, after, rz));
                },
                Err(e) => {
                    let rz = Err::<(P1::Output, P2::Output), Fail<P1::Error>>(e);
                    assert(p2.spec_parse(mid, after, r2));
                    assert(z.spec_parse(before, after, rz));
                },
            }
        },
    }
}

/// `zip_right` keeps the second value of `zip`: every outcome of `zip_right` is an
/// outcome of `zip` on the same input, ending in the same state, whose pair ends
/// with the kept value; the failures are the same.
pub proof fn law_zip_right_is_second_of_zip<I: Input, P1: Parser<I>, P2: Parser<I, Error = P1::Error>>(
    p1: P1,
    p2: P2,
    before: I,
    after: I,
    r: PResult<P2::Output, P1::Error>,
)
    requires
        (ZipRight { first: p1, second: p2 }).spec_parse(before, after, r),
    ensures
        exists|rz: PResult<(P1::Output, P2::Output), P1::Error>| #[trigger] (Zip { first: p1, second: p2 }).spec_parse(before, after, rz)
            && match r {
            Ok(b) => rz matches Ok(pair) && pair.1 == b,
            Err(e) => rz == Err::<(P1::Output, P2::Output), Fail<P1::Error>>(e),
        },
{
    let (mid, r1) = choose|mid: I, r1: PResult<P1::Output, P1::Error>| #[trigger] p1.spec_parse(before, mid, r1)
        && before.advanced(mid) && match r1 {
        Err(e) => after == mid && r == Err::<P2::Output, Fail<P1::Error>>(e),
        Ok(a) => exists|r2: PResult<P2::Output, P1::Error>| #[trigger] p2.spec_parse(mid, after, r2) && match r2 {
            Ok(b) => r == Ok::<P2::Output, Fail<P1::Error>>(b),
            Err(e) => r == Err::<P2::Output, Fail<P1::Error>>(e),
        },
    };
    let z = Zip { first: p1, second: p2 };
    match r1 {
        Err(e) => {
            let rz = Err::<(P1::Output, P2::Output), Fail<P1::Error>>(e);
            assert(z.spec_parse(before, after, rz));
        },
        Ok(a) => {
            let r2 = choose|r2: PResult<P2::Output, P1::Error>| #[trigger] p2.spec_parse(mid, after, r2) && match r2 {
                Ok(b) => r == Ok::<P2::Output, Fail<P1::Error>>(b),
                Err(e) => r == Err::<P2::Output, Fail<P1::Error>>(e),
            };
            match r2 {
                Ok(b) => {
                    let rz = Ok::<(P1::Output, P2::Output), Fail<P1::Error>>((a, b));
                    assert(p2.spec_parse(mid, after, r2));
                    assert(z.spec_parse(before, after, rz));
                },
                Err(e) => {
                    let rz = Err::<(P1::Output, P2::Output), Fail<P1::Error>>(e);
                    assert(p2.spec_parse(mid, after, r2));
                    assert(z.spec_parse(before, after, rz));
                },
            }
        },
    }
}

/// `identifier` reads the whole identifier at the start of the rest, and only it:
/// where the rest begins with an identifier of `j` characters, the parse gives
/// those characters and moves past them; where it begins with none, it
/// backtracks and consumes nothing.
pub proof fn law_identifier_reads_the_whole_identifier<'a>(
    before: StrInput<'a>,
    after: StrInput<'a>,
    r: PResult<&'a str, String>,
)
    requires
        Identifier.spec_parse(before, after, r),
    ensures
        forall|j: int| #[trigger] is_ident_prefix(before.rest(), j) ==> {
            &&& r matches Ok(v) && v@ == before.rest().take(j)
            &&& after == before.at_index(before.index() + j)
        },
        (forall|j: int| !#[trigger] is_ident_prefix(before.rest(), j)) ==> {
            &&& r matches Err(Fail::Backtrack(_))
            &&& after == before
        },
{
    let s = before.rest();
    assert forall|j: int| #[trigger] is_ident_prefix(s, j) implies {
        &&& r matches Ok(v) && v@ == s.take(j)
        &&& after == before.at_index(before.index() + j)
    } by {
        let k = choose|k: int| #[trigger] is_ident_prefix(s, k) && {
            &&& r matches Ok(v) && v@ == s.take(k)
            &&& after == before.at_index(before.index() + k)
        };
        if k < j {
            assert(crate::text::identifier::is_ident_continue(s[k]));
        } else if j < k {
            assert(crate::text::identifier::is_ident_continue(s[j]));
        }
    }
    if s.len() > 0 && is_ident_start(s[0]) {
        let k = choose|k: int| #[trigger] is_ident_prefix(s, k) && {
            &&& r matches Ok(v) && v@ == s.take(k)
            &&& after == before.at_index(before.index() + k)
        };
        assert(is_ident_prefix(s, k));
    }
}

/// Every failure of `escaped` leaves the input where it was; it backtracks exactly
/// when the rest does not begin with the opening delimiter, and a success moves
/// past at least the two delimiters.
pub proof fn law_escaped_failures_consume_nothing<'a, F: Fn(char) -> Option<char>>(
    p: Escaped<F>,
    before: StrInput<'a>,
    after: StrInput<'a>,
    r: PResult<String, String>,
)
    requires
        before.wf(),
        p.spec_parse(before, after, r),
    ensures
        r is Err ==> after == before,
        (r matches Err(Fail::Backtrack(_))) <==> (before.rest().len() == 0 || before.rest()[0] != p.open),
        r is Ok ==> after.index() >= before.index() + 2,
{
    let s = before.rest();
    if s.len() != 0 && s[0] == p.open {
        let out = choose|out: crate::text::escaped::EscapedBody| #[trigger] crate::text::escaped::escaped_run(
            p.handler,
            p.close,
            p.escape,
            s.skip(1),
            0,
            Seq::empty(),
            out,
        ) && match out {
            crate::text::escaped::EscapedBody::Closed { value, len } => {
                &&& r matches Ok(v) && v@ == value
                &&& after == before.at_index(before.index() + 1 + len)
            },
            _ => {
                &&& after == before
                &&& r matches Err(Fail::Cut(m)) && m@ == crate::text::escaped::escaped_message(
                    s.skip(1),
                    p.close,
                    p.escape,
                    out,
                )
            },
        };
        if out is Closed {
            crate::text::escaped::lemma_escaped_closed_len(p.handler, p.close, p.escape, s.skip(1), 0, Seq::empty(), out);
            before.lemma_wf();
            before.lemma_at_index(before.index() + 1 + out->len);
        }
    }
}

/// `quoted_string_cow` borrows exactly the unescaped text: where the first `"` or
/// `\` after the opening quote, at index `j` of the rest, is a `"`, the result
/// borrows the characters between the quotes and the input moves past the closing
/// quote; where it is a `\`, every success owns its text.
pub proof fn law_quoted_string_cow_borrows_unescaped_text<'a>(
    before: StrInput<'a>,
    after: StrInput<'a>,
    r: PResult<CowStr<'a>, crate::error::ParseError>,
    j: int,
)
    requires
        QuotedStringCow.spec_parse(before, after, r),
        before.rest().len() > j >= 1,
        before.rest()[0] == '"',
        forall|k: int| 1 <= k < j ==> before.rest()[k] != '"' && before.rest()[k] != '\\',
    ensures
        before.rest()[j] == '"' ==> {
            &&& r matches Ok(v) && v is Borrowed && v@ == before.rest().subrange(1, j)
            &&& after == before.at_index(before.index() + j + 1)
        },
        before.rest()[j] == '\\' ==> (r matches Ok(v) ==> v is Owned),
{
    let s = before.rest();
    let b = s.skip(1);
    assert forall|k: int| 0 <= k < j - 1 implies b[k] != '"' && b[k] != '\\' by {
        assert(b[k] == s[k + 1]);
    }
    lemma_decode_plain(b, j - 1);
    lemma_decode_closed_len(b, j - 1, b.take(j - 1));
    assert(b[j - 1] == s[j]);
    if s[j] == '"' {
        assert(b.take(j - 1) =~= s.subrange(1, j));
        assert(!b.take(j - 1).contains('\\')) by {
            if b.take(j - 1).contains('\\') {
                let k = choose|k: int| 0 <= k < b.take(j - 1).len() && #[trigger] b.take(j - 1)[k] == '\\';
                assert(b[k] == '\\');
            }
        }
    } else if s[j] == '\\' {
        if decode_quoted(b, 0, Seq::empty()) is Closed {
            let len = decode_quoted(b, 0, Seq::empty())->Closed_len;
            assert(b.take(len - 1)[j - 1] == '\\');
            assert(b.take(len - 1).contains('\\'));
        }
    }
}

/// `between(l, p, r)` runs `l`, then `p`, then `r`, each from where the last
/// stopped, and keeps only `p`'s value: it succeeds with `y` exactly when all
/// three succeed and `p` gives `y`; otherwise it fails with the error of the first
/// of them that fails, stopping where that one stopped.
pub proof fn law_between_keeps_the_middle_value<I: Input, L: Parser<I>, P: Parser<I, Error = L::Error>, R: Parser<
    I,
    Error = L::Error,
>>(l: L, p: P, r: R, before: I, after: I, res: PResult<P::Output, L::Error>)
    requires
        (ZipRight { first: l, second: ZipLeft { first: p, second: r } }).spec_parse(before, after, res),
    ensures
        res matches Ok(y) ==> exists|m1: I, m2: I, a: L::Output, c: R::Output|
            #![trigger l.spec_parse(before, m1, Ok::<L::Output, Fail<L::Error>>(a)), r.spec_parse(m2, after, Ok::<R::Output, Fail<L::Error>>(c))]
            l.spec_parse(before, m1, Ok::<L::Output, Fail<L::Error>>(a))
                && p.spec_parse(m1, m2, Ok::<P::Output, Fail<L::Error>>(y))
                && r.spec_parse(m2, after, Ok::<R::Output, Fail<L::Error>>(c)),
        res matches Err(e) ==> {
            ||| l.spec_parse(before, after, Err::<L::Output, Fail<L::Error>>(e))
            ||| exists|m1: I, a: L::Output| #[trigger] l.spec_parse(before, m1, Ok::<L::Output, Fail<L::Error>>(a)) && {
                ||| p.spec_parse(m1, after, Err::<P::Output, Fail<L::Error>>(e))
                ||| exists|m2: I, y: P::Output| #[trigger] p.spec_parse(m1, m2, Ok::<P::Output, Fail<L::Error>>(y))
                    && r.spec_parse(m2, after, Err::<R::Output, Fail<L::Error>>(e))
            }
        },
{
    let zl = ZipLeft { first: p, second: r };
    let (m1, r1) = choose|m1: I, r1: PResult<L::Output, L::Error>| #[trigger] l.spec_parse(before, m1, r1)
        && before.advanced(m1) && match r1 {
        Err(e) => after == m1 && res == Err::<P::Output, Fail<L::Error>>(e),
        Ok(a) => exists|r2: PResult<P::Output, L::Error>| #[trigger] zl.spec_parse(m1, after, r2) && match r2 {
            Ok(b) => res == Ok::<P::Output, Fail<L::Error>>(b),
            Err(e) => res == Err::<P::Output, Fail<L::Error>>(e),
        },
    };
    match r1 {
        Err(e) => {},
        Ok(a) => {
            let r2 = choose|r2: PResult<P::Output, L::Error>| #[trigger] zl.spec_parse(m1, after, r2) && match r2 {
                Ok(b) => res == Ok::<P::Output, Fail<L::Error>>(b),
                Err(e) => res == Err::<P::Output, Fail<L::Error>>(e),
            };
            let (m2, q1) = choose|m2: I, q1: PResult<P::Output, L::Error>| #[trigger] p.spec_parse(m1, m2, q1)
                && m1.advanced(m2) && match q1 {
                Err(e) => after == m2 && r2 == Err::<P::Output, Fail<L::Error>>(e),
                Ok(y) => exists|q2: PResult<R::Output, L::Error>| #[trigger] r.spec_parse(m2, after, q2) && match q2 {
                    Ok(c) => r2 == Ok::<P::Output, Fail<L::Error>>(y),
                    Err(e) => r2 == Err::<P::Output, Fail<L::Error>>(e),
                },
            };
            match q1 {
                Err(e) => {
                    assert(l.spec_parse(before, m1, Ok::<L::Output, Fail<L::Error>>(a)));
                },
                Ok(y) => {
                    let q2 = choose|q2: PResult<R::Output, L::Error>| #[trigger] r.spec_parse(m2, after, q2) && match q2 {
                        Ok(c) => r2 == Ok::<P::Output, Fail<L::Error>>(y),
                        Err(e) => r2 == Err::<P::Output, Fail<L::Error>>(e),
                    };
                    assert(l.spec_parse(before, m1, Ok::<L::Output, Fail<L::Error>>(a)));
                    assert(p.spec_parse(m1, m2, Ok::<P::Output, Fail<L::Error>>(y)));
                    match q2 {
                        Ok(c) => {
                            assert(r.spec_parse(m2, after, Ok::<R::Output, Fail<L::Error>>(c)));
                        },
                        Err(e) => {
                            assert(r.spec_parse(m2, after, Err::<R::Output, Fail<L::Error>>(e)));
                        },
                    }
                },
            }
        },
    }
}

} // verus!
