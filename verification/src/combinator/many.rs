//! Repeating a parser zero or more times.
use vstd::prelude::*;
use crate::fail::{Fail, PResult};
use crate::input::Input;
use crate::parser::Parser;

verus! {

/// Runs `parser` until it fails with `Backtrack` and collects the values. The
/// input is rewound to before the failing attempt. An item that succeeds without
/// consuming input ends the repetition with `ZeroProgress`; `Cut` passes through.
pub struct Many<P> {
    pub parser: P,
}

/// `n` further items are parsed from state `s` (after the items `acc`), ending in
/// state `after` with outcome `r`.
pub open spec fn many_steps<I: Input, P: Parser<I>>(
    p: P,
    n: nat,
    s: I,
    after: I,
    acc: Seq<P::Output>,
    r: PResult<Vec<P::Output>, P::Error>,
) -> bool
    decreases n,
{
    exists|mid: I, ri: PResult<P::Output, P::Error>|
        #![trigger p.spec_parse(s, mid, ri)]
        p.spec_parse(s, mid, ri) && s.advanced(mid) && match ri {
            Ok(v) => if mid.spec_offset() == s.spec_offset() {
                n == 0 && after == mid && r == Err::<Vec<P::Output>, Fail<P::Error>>(Fail::ZeroProgress)
            } else if n == 0 {
                false
            } else {
                many_steps(p, (n - 1) as nat, mid, after, acc.push(v), r)
            },
            Err(Fail::Backtrack(_)) => n == 0 && after == s && (r matches Ok(vs) && vs@ == acc),
            Err(e) => n == 0 && after == mid && r == Err::<Vec<P::Output>, Fail<P::Error>>(e),
        }
}

impl<I: Input, P: Parser<I>> Parser<I> for Many<P> {
    type Output = Vec<P::Output>;
    type Error = P::Error;

    open spec fn inv(&self) -> bool {
        self.parser.inv()
    }

    open spec fn spec_parse(&self, before: I, after: I, r: PResult<Vec<P::Output>, P::Error>) -> bool {
        exists|n: nat| #[trigger] many_steps(self.parser, n, before, after, Seq::empty(), r)
    }

    fn parse_next(&mut self, input: &mut I) -> (r: PResult<Vec<P::Output>, P::Error>) {
        let ghost before = *input;
        let mut items: Vec<P::Output> = Vec::new();
        let ghost mut count: nat = 0;
        proof {
            before.lemma_advanced_refl();
            before.lemma_offset_bound();
        }
        loop
            invariant
                *self == *old(self),
                before == *old(input),
                self.parser.inv(),
                input.wf(),
                before.advanced(*input),
                0 <= input.spec_offset() <= input.spec_end(),
                forall|k: nat, a: I, rr: PResult<Vec<P::Output>, P::Error>|
                    #[trigger] many_steps(self.parser, k, *input, a, items@, rr) ==> many_steps(
                        self.parser,
                        k + count,
                        before,
                        a,
                        Seq::empty(),
                        rr,
                    ),
            decreases input.spec_end() - input.spec_offset(),
        {
            let ghost s = *input;
            let cp = input.checkpoint();
            let start = input.offset();
            let ri = self.parser.parse_next(input);
            let ghost gi = ri;
            let ghost mid = *input;
            proof {
                assert(self.parser.spec_parse(s, mid, gi));
                I::lemma_advanced_wf(s, mid);
                I::lemma_advanced_trans(before, s, mid);
                mid.lemma_offset_bound();
            }
            match ri {
                Ok(v) => {
                    if input.offset() == start {
                        proof {
                            assert(many_steps(self.parser, 0, s, mid, items@, Err(Fail::ZeroProgress)));
                        }
                        return Err(Fail::ZeroProgress);
                    }
                    let ghost old_items = items@;
                    items.push(v);
                    proof {
                        assert forall|k: nat, a: I, rr: PResult<Vec<P::Output>, P::Error>|
                            #[trigger] many_steps(self.parser, k, mid, a, items@, rr) implies many_steps(
                            self.parser,
                            k + count + 1,
                            before,
                            a,
                            Seq::empty(),
                            rr,
                        ) by {
                            assert(items@ == old_items.push(v));
                            assert(many_steps(self.parser, k + 1, s, a, old_items, rr));
                        }
                        count = count + 1;
                    }
                }
                Err(Fail::Backtrack(e)) => {
                    proof {
                        I::lemma_reset_restores(s, mid);
                    }
                    input.reset(cp);
                    proof {
                        assert(many_steps(self.parser, 0, s, s, items@, Ok(items)));
                    }
                    return Ok(items);
                }
                Err(e) => {
                    proof {
                        assert(many_steps(self.parser, 0, s, mid, items@, Err(e)));
                    }
                    return Err(e);
                }
            }
        }
    }
}

} // verus!
