//! Chains of a parser and a binary operator parser, folded from the left.
use vstd::prelude::*;
use super::error::{CommittedStatus, committed_or, committed_of};
use super::result::{ParseResult, passes_failure};
use super::runner::ParserRunner;

verus! {

/// The possible results of `rest_left1` from `offset` with the value `x` so far,
/// as seen by a caller that consumed `len` elements before (and committed when
/// `commit` holds): the operator parser runs; after its failure, a clone of `x`
/// with length zero. After it gives `f` (consuming `n1`), the parser runs: its
/// failure is passed on (committed when `n1 > 0`); its value `y` (consuming `n2`)
/// gives `z = f(x, y)`, and the chain goes on from there with `z`, the lengths
/// added (a round that consumes nothing ends the chain with `z`).
#[verifier::opaque]
pub open spec fn rest_left_outcome<'a, I: 'a, A: Clone, F: Fn(A, A) -> A, P: ParserRunner<'a, I, Output = A>, Q: ParserRunner<'a, I, Output = F>>(
    p: P,
    op: Q,
    input: Seq<I>,
    offset: int,
    x: A,
    len: int,
    commit: bool,
    r: ParseResult<A>,
) -> bool
    decreases input.len() - offset,
{
    exists|ro: ParseResult<F>| #[trigger] op.accepts(input, offset, ro) && match ro {
        ParseResult::Failure { .. } => r matches ParseResult::Success { value, length } && length == len && cloned(x, value),
        ParseResult::Success { value: f, length: n1 } => exists|rp: ParseResult<A>| #[trigger] p.accepts(input, offset + n1, rp)
            && match rp {
            ParseResult::Failure { error, committed_status } => r == (ParseResult::<A>::Failure {
                error,
                committed_status: committed_or(committed_status, committed_of(commit || n1 != 0)),
            }),
            ParseResult::Success { value: y, length: n2 } => exists|x2: A, z: A| #[trigger] call_ensures(f, (x2, y), z)
                && cloned(x, x2) && if n1 + n2 == 0 || offset + n1 + n2 > input.len() {
                r == (ParseResult::Success { value: z, length: len as usize })
            } else {
                rest_left_outcome(p, op, input, offset + n1 + n2, z, len + n1 + n2, commit || n1 != 0, r)
            },
        },
    }
}

/// The chain ends with a clone of `x` when the operator parser fails.
proof fn lemma_rest_left_op_fails<'a, I: 'a, A: Clone, F: Fn(A, A) -> A, P: ParserRunner<'a, I, Output = A>, Q: ParserRunner<'a, I, Output = F>>(
    p: P,
    op: Q,
    input: Seq<I>,
    offset: int,
    x: A,
    len: int,
    commit: bool,
    ro: ParseResult<F>,
    v: A,
)
    requires
        op.accepts(input, offset, ro),
        ro is Failure,
        cloned(x, v),
        0 <= len <= usize::MAX,
    ensures
        rest_left_outcome(p, op, input, offset, x, len, commit, ParseResult::Success { value: v, length: len as usize }),
{
    reveal_with_fuel(rest_left_outcome, 1);
}

/// The chain ends with the parser's failure after an operator.
proof fn lemma_rest_left_item_fails<'a, I: 'a, A: Clone, F: Fn(A, A) -> A, P: ParserRunner<'a, I, Output = A>, Q: ParserRunner<'a, I, Output = F>>(
    p: P,
    op: Q,
    input: Seq<I>,
    offset: int,
    x: A,
    len: int,
    commit: bool,
    ro: ParseResult<F>,
    rp: ParseResult<A>,
)
    requires
        op.accepts(input, offset, ro),
        ro is Success,
        p.accepts(input, offset + ro->length, rp),
        rp is Failure,
    ensures
        rest_left_outcome(
            p,
            op,
            input,
            offset,
            x,
            len,
            commit,
            ParseResult::Failure {
                error: rp->error,
                committed_status: committed_or(rp->committed_status, committed_of(commit || ro->length != 0)),
            },
        ),
{
    reveal_with_fuel(rest_left_outcome, 1);
}

/// A round that consumes nothing ends the chain with its value.
proof fn lemma_rest_left_stop<'a, I: 'a, A: Clone, F: Fn(A, A) -> A, P: ParserRunner<'a, I, Output = A>, Q: ParserRunner<'a, I, Output = F>>(
    p: P,
    op: Q,
    input: Seq<I>,
    offset: int,
    x: A,
    len: int,
    commit: bool,
    ro: ParseResult<F>,
    rp: ParseResult<A>,
    x2: A,
    z: A,
)
    requires
        op.accepts(input, offset, ro),
        ro is Success,
        p.accepts(input, offset + ro->length, rp),
        rp is Success,
        cloned(x, x2),
        call_ensures(ro->value, (x2, rp->value), z),
        ro->length + rp->length == 0,
        0 <= len <= usize::MAX,
    ensures
        rest_left_outcome(p, op, input, offset, x, len, commit, ParseResult::Success { value: z, length: len as usize }),
{
    reveal_with_fuel(rest_left_outcome, 1);
}

/// A round that consumes something goes on with its value.
proof fn lemma_rest_left_step<'a, I: 'a, A: Clone, F: Fn(A, A) -> A, P: ParserRunner<'a, I, Output = A>, Q: ParserRunner<'a, I, Output = F>>(
    p: P,
    op: Q,
    input: Seq<I>,
    offset: int,
    x: A,
    len: int,
    commit: bool,
    ro: ParseResult<F>,
    rp: ParseResult<A>,
    x2: A,
    z: A,
    r: ParseResult<A>,
)
    requires
        op.accepts(input, offset, ro),
        ro is Success,
        p.accepts(input, offset + ro->length, rp),
        rp is Success,
        cloned(x, x2),
        call_ensures(ro->value, (x2, rp->value), z),
        ro->length + rp->length > 0,
        offset + ro->length + rp->length <= input.len(),
        rest_left_outcome(
            p,
            op,
            input,
            offset + ro->length + rp->length,
            z,
            len + ro->length + rp->length,
            commit || ro->length != 0,
            r,
        ),
    ensures
        rest_left_outcome(p, op, input, offset, x, len, commit, r),
{
    reveal_with_fuel(rest_left_outcome, 1);
}

/// Every result of the chain from this state is a result of the chain from its
/// start.
spec fn chain_leads_back<'a, I: 'a, A: Clone, F: Fn(A, A) -> A, P: ParserRunner<'a, I, Output = A>, Q: ParserRunner<'a, I, Output = F>>(
    p: P,
    op: Q,
    input: Seq<I>,
    offset: int,
    len0: int,
    x0: A,
    cur: int,
    x: A,
    len: int,
    commit: bool,
) -> bool {
    forall|r: ParseResult<A>| #![trigger rest_left_outcome(p, op, input, cur, x, len, commit, r)]
        rest_left_outcome(p, op, input, cur, x, len, commit, r) ==> rest_left_outcome(
            p,
            op,
            input,
            offset,
            x0,
            len0,
            false,
            r,
        )
}

proof fn lemma_chain_leads_back<'a, I: 'a, A: Clone, F: Fn(A, A) -> A, P: ParserRunner<'a, I, Output = A>, Q: ParserRunner<'a, I, Output = F>>(
    p: P,
    op: Q,
    input: Seq<I>,
    offset: int,
    len0: int,
    x0: A,
    cur: int,
    x: A,
    len: int,
    commit: bool,
    r: ParseResult<A>,
)
    requires
        chain_leads_back(p, op, input, offset, len0, x0, cur, x, len, commit),
        rest_left_outcome(p, op, input, cur, x, len, commit, r),
    ensures
        rest_left_outcome(p, op, input, offset, x0, len0, false, r),
{
}

/// The operator values may be applied to any two values.
pub open spec fn applicable<A, F: Fn(A, A) -> A>() -> bool {
    forall|f: F, a: A, b: A| call_requires(f, (a, b))
}

/// Runs the fold of `rest_left_outcome` from `offset` with `x`, for a caller that
/// consumed `len0` elements before.
fn run_rest_left<'a, I: 'a, A: Clone, F: Fn(A, A) -> A, P: ParserRunner<'a, I, Output = A>, Q: ParserRunner<'a, I, Output = F>>(
    p: &P,
    op: &Q,
    input: &'a [I],
    offset: usize,
    x: &A,
    len0: usize,
) -> (r: ParseResult<A>)
    requires
        p.inv(),
        op.inv(),
        applicable::<A, F>(),
        offset <= input@.len(),
        len0 <= offset,
    ensures
        rest_left_outcome(*p, *op, input@, offset as int, *x, len0 as int, false, r),
        r matches ParseResult::Success { length, .. } ==> offset - len0 + length <= input@.len(),
{
    let len = input.len();
    let mut cur = offset;
    let mut acc: Option<A> = None;
    let mut total: usize = len0;
    let mut commit = false;
    let ghost x0 = *x;
    loop
        invariant
            p.inv(),
            op.inv(),
            applicable::<A, F>(),
            len == input@.len(),
            len0 <= offset <= cur <= len,
            total == cur - offset + len0,
            acc is None ==> cur == offset && !commit,
            x0 == *x,
            chain_leads_back(
                *p,
                *op,
                input@,
                offset as int,
                len0 as int,
                x0,
                cur as int,
                if acc is Some {
                    acc->0
                } else {
                    *x
                },
                total as int,
                commit,
            ),
        decreases len - cur,
    {
        let ghost xc = if acc is Some {
            acc->0
        } else {
            *x
        };
        let ro = op.run(input, cur);
        let ghost gro = ro;
        proof {
            assert(op.accepts(input@, cur as int, gro));
        }
        let x2 = match &acc {
            Some(a) => a.clone(),
            None => x.clone(),
        };
        match ro {
            ParseResult::Failure { .. } => {
                let r = ParseResult::successful(x2, total);
                proof {
                    lemma_rest_left_op_fails(*p, *op, input@, cur as int, xc, total as int, commit, gro, x2);
                    lemma_chain_leads_back(*p, *op, input@, offset as int, len0 as int, x0, cur as int, xc, total as int, commit, r);
                }
                return r;
            },
            ParseResult::Success { value: f, length: n1 } => {
                let rp = p.run(input, cur + n1);
                let ghost grp = rp;
                proof {
                    assert(p.accepts(input@, cur + n1, grp));
                }
                match rp {
                    ParseResult::Failure { error, committed_status } => {
                        let c = committed_status.or(&CommittedStatus::from_bool(commit || n1 != 0));
                        let r = ParseResult::failed(error, c);
                        proof {
                            lemma_rest_left_item_fails(*p, *op, input@, cur as int, xc, total as int, commit, gro, grp);
                            lemma_chain_leads_back(*p, *op, input@, offset as int, len0 as int, x0, cur as int, xc, total as int, commit, r);
                        }
                        return r;
                    },
                    ParseResult::Success { value: y, length: n2 } => {
                        let ghost gx2 = x2;
                        let z = f(x2, y);
                        let step = n1 + n2;
                        if step == 0 {
                            let r = ParseResult::successful(z, total);
                            proof {
                                lemma_rest_left_stop(*p, *op, input@, cur as int, xc, total as int, commit, gro, grp, gx2, r->value);
                                lemma_chain_leads_back(*p, *op, input@, offset as int, len0 as int, x0, cur as int, xc, total as int, commit, r);
                            }
                            return r;
                        }
                        let ghost zc = z;
                        let ghost cur0 = cur as int;
                        let ghost total0 = total as int;
                        let ghost commit0 = commit;
                        let ghost commit1 = commit || n1 != 0;
                        proof {
                            assert forall|r: ParseResult<A>| #[trigger] rest_left_outcome(*p, *op, input@, cur0 + step, zc, total0 + step, commit1, r)
                                implies rest_left_outcome(*p, *op, input@, offset as int, x0, len0 as int, false, r) by {
                                lemma_rest_left_step(*p, *op, input@, cur0, xc, total0, commit0, gro, grp, gx2, zc, r);
                                lemma_chain_leads_back(*p, *op, input@, offset as int, len0 as int, x0, cur0, xc, total0, commit0, r);
                            }
                        }
                        acc = Some(z);
                        cur = cur + step;
                        total = total + step;
                        commit = commit || n1 != 0;
                    },
                }
            },
        }
    }
}

/// Folds `op parser op parser ...` from the left, starting from `x`: each
/// operator value combines the value so far with the next parser value. A round
/// of `op parser` that consumes nothing ends the chain after it is folded in
/// (repeating it would never end).
pub struct RestLeft1<P, Q, A> {
    pub parser: P,
    pub op: Q,
    pub x: A,
}

impl<'a, I: 'a, A: Clone, F: Fn(A, A) -> A, P: ParserRunner<'a, I, Output = A>, Q: ParserRunner<'a, I, Output = F>> ParserRunner<'a, I> for RestLeft1<P, Q, A> {
    type Output = A;

    open spec fn inv(&self) -> bool {
        &&& self.parser.inv()
        &&& self.op.inv()
        &&& applicable::<A, F>()
    }

    /// The results `rest_left_outcome` describes, from the offset with `x`.
    open spec fn accepts(&self, input: Seq<I>, offset: int, r: ParseResult<A>) -> bool {
        rest_left_outcome(self.parser, self.op, input, offset, self.x, 0, false, r)
    }

    fn run(&self, input: &'a [I], offset: usize) -> (r: ParseResult<A>) {
        run_rest_left(&self.parser, &self.op, input, offset, &self.x, 0)
    }
}

/// Reads `parser (op parser)*` and folds the values from the left with the
/// operator values.
pub struct ChainLeft1<P, Q> {
    pub parser: P,
    pub op: Q,
}

impl<'a, I: 'a, P: ParserRunner<'a, I>, Q: ParserRunner<'a, I>> ParserRunner<'a, I> for ChainLeft1<P, Q> where
    P::Output: Clone,
    Q::Output: Fn(P::Output, P::Output) -> P::Output,
 {
    type Output = P::Output;

    open spec fn inv(&self) -> bool {
        &&& self.parser.inv()
        &&& self.op.inv()
        &&& applicable::<P::Output, Q::Output>()
    }

    /// A failure of the first parse is passed on; after its value `x` (consuming
    /// `n1`), the results `rest_left_outcome` describes from there with `x`, their
    /// lengths counting `n1`.
    open spec fn accepts(&self, input: Seq<I>, offset: int, r: ParseResult<P::Output>) -> bool {
        exists|r0: ParseResult<P::Output>| #[trigger] self.parser.accepts(input, offset, r0) && match r0 {
            ParseResult::Failure { .. } => passes_failure(r, r0),
            ParseResult::Success { value, length } => rest_left_outcome(
                self.parser,
                self.op,
                input,
                offset + length,
                value,
                length as int,
                false,
                r,
            ),
        }
    }

    fn run(&self, input: &'a [I], offset: usize) -> (r: ParseResult<P::Output>) {
        let len = input.len();
        let r0 = self.parser.run(input, offset);
        let ghost g0 = r0;
        proof {
            assert(self.parser.accepts(input@, offset as int, g0));
        }
        match r0 {
            ParseResult::Failure { error, committed_status } => ParseResult::failed(error, committed_status),
            ParseResult::Success { value, length } => {
                let r = run_rest_left(&self.parser, &self.op, input, offset + length, &value, length);
                r
            },
        }
    }
}

/// One operator and one parser value after `x`: `op parser`, combined as
/// `f(x, y)`; `x` itself when the operator parser fails.
pub struct RestRight1<P, Q, A> {
    pub parser: P,
    pub op: Q,
    pub x: A,
}

impl<'a, I: 'a, A: Clone, F: Fn(A, A) -> A, P: ParserRunner<'a, I, Output = A>, Q: ParserRunner<'a, I, Output = F>> ParserRunner<'a, I> for RestRight1<P, Q, A> {
    type Output = A;

    open spec fn inv(&self) -> bool {
        &&& self.parser.inv()
        &&& self.op.inv()
        &&& applicable::<A, F>()
    }

    /// After a failure of the operator parser: a clone of `x` with length zero.
    /// After its value `f` (consuming `n1`): the parser's failure is passed on; its
    /// value `y` (consuming `n2`) gives `f(x, y)` with length `n1 + n2`.
    open spec fn accepts(&self, input: Seq<I>, offset: int, r: ParseResult<A>) -> bool {
        exists|ro: ParseResult<F>| #[trigger] self.op.accepts(input, offset, ro) && match ro {
            ParseResult::Failure { .. } => r matches ParseResult::Success { value, length } && length == 0 && cloned(
                self.x,
                value,
            ),
            ParseResult::Success { value: f, length: n1 } => exists|rp: ParseResult<A>| #[trigger] self.parser.accepts(
                input,
                offset + n1,
                rp,
            ) && match rp {
                ParseResult::Failure { .. } => passes_failure(r, rp),
                ParseResult::Success { value: y, length: n2 } => exists|x2: A, z: A| #[trigger] call_ensures(f, (x2, y), z)
                    && cloned(self.x, x2) && r == (ParseResult::Success { value: z, length: (n1 + n2) as usize }),
            },
        }
    }

    fn run(&self, input: &'a [I], offset: usize) -> (r: ParseResult<A>) {
        let len = input.len();
        let ro = self.op.run(input, offset);
        let ghost gro = ro;
        proof {
            assert(self.op.accepts(input@, offset as int, gro));
        }
        match ro {
            ParseResult::Failure { .. } => ParseResult::successful(self.x.clone(), 0),
            ParseResult::Success { value: f, length: n1 } => {
                let rp = self.parser.run(input, offset + n1);
                let ghost grp = rp;
                proof {
                    assert(self.parser.accepts(input@, offset + n1, grp));
                }
                match rp {
                    ParseResult::Failure { error, committed_status } => ParseResult::failed(error, committed_status),
                    ParseResult::Success { value: y, length: n2 } => {
                        let x2 = self.x.clone();
                        let ghost gx2 = x2;
                        let ghost gy = y;
                        let z = f(x2, y);
                        proof {
                            assert(call_ensures(gro->value, (gx2, gy), z));
                        }
                        ParseResult::successful(z, n1 + n2)
                    },
                }
            },
        }
    }
}

} // verus!
