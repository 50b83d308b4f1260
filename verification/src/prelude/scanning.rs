//! Slice parsers that look ahead for their run: the elements that the test
//! rejects are skipped first, then the run of accepted elements is taken.
use vstd::prelude::*;
use crate::static_parser::predicate::FnPredicate;
use crate::static_parser::runner::ParserRunner;
use crate::static_parser::take::SeekWhile;

verus! {

/// The first run of elements that `f` accepts, after skipping those it rejects;
/// empty (consuming nothing) when no element is accepted.
pub fn take_while0<'a, I: 'a, F: Fn(&I) -> bool>(f: F) -> (p: SeekWhile<FnPredicate<F>>)
    ensures
        p.pred.0 == f,
        p.n == 0,
        p.m is None,
        <SeekWhile<FnPredicate<F>> as ParserRunner<'a, I>>::inv(&p) <==> (forall|e: I| call_requires(f, (&e,))),
{
    SeekWhile { pred: FnPredicate(f), n: 0, m: None }
}

/// The first run of elements that `f` accepts, after skipping those it rejects;
/// fails when no element is accepted.
pub fn take_while1<'a, I: 'a, F: Fn(&I) -> bool>(f: F) -> (p: SeekWhile<FnPredicate<F>>)
    ensures
        p.pred.0 == f,
        p.n == 1,
        p.m is None,
        <SeekWhile<FnPredicate<F>> as ParserRunner<'a, I>>::inv(&p) <==> (forall|e: I| call_requires(f, (&e,))),
{
    SeekWhile { pred: FnPredicate(f), n: 1, m: None }
}

/// The first run of elements that `f` accepts, after skipping those it rejects;
/// fails unless the whole run has from `n` to `m` elements.
pub fn take_while_n_m<'a, I: 'a, F: Fn(&I) -> bool>(n: usize, m: usize, f: F) -> (p: SeekWhile<FnPredicate<F>>)
    ensures
        p.pred.0 == f,
        p.n == n,
        p.m == Some(m),
        <SeekWhile<FnPredicate<F>> as ParserRunner<'a, I>>::inv(&p) <==> (forall|e: I| call_requires(f, (&e,))),
{
    SeekWhile { pred: FnPredicate(f), n, m: Some(m) }
}

} // verus!
