//! Running two parsers in sequence and pairing their values.
use vstd::prelude::*;
use crate::fail::{Fail, PResult};
use crate::input::Input;
use crate::parser::Parser;

verus! {

/// Runs `first`, then `second`; succeeds with both values. The first failure is returned as is.
pub struct Zip<P1, P2> {
    pub first: P1,
    pub second: P2,
}

/// The outcome of running `p1` and then `p2` from `before`, combining the two values with `g`.
pub open spec fn seq_outcome<I: Input, P1: Parser<I>, P2: Parser<I, Error = P1::Error>, O>(
    p1: P1,
    p2: P2,
    g: spec_fn(P1::Output, P2::Output) -> O,
    before: I,
    after: I,
    r: PResult<O, P1::Error>,
) -> bool {
    exists|mid: I, r1: PResult<P1::Output, P1::Error>|
        #![trigger p1.spec_parse(before, mid, r1)]
        p1.spec_parse(before, mid, r1) && before.advanced(mid) && match r1 {
            Err(e) => after == mid && r == Err::<O, Fail<P1::Error>>(e),
            Ok(a) => exists|r2: PResult<P2::Output, P1::Error>| #[trigger] p2.spec_parse(mid, after, r2)
                && match r2 {
                Ok(b) => r == Ok::<O, Fail<P1::Error>>(g(a, b)),
                Err(e) => r == Err::<O, Fail<P1::Error>>(e),
            },
        }
}

impl<I: Input, P1: Parser<I>, P2: Parser<I, Error = P1::Error>> Parser<I> for Zip<P1, P2> {
    type Output = (P1::Output, P2::Output);
    type Error = P1::Error;

    open spec fn inv(&self) -> bool {
        self.first.inv() && self.second.inv()
    }

    open spec fn spec_parse(&self, before: I, after: I, r: PResult<(P1::Output, P2::Output), P1::Error>) -> bool {
        seq_outcome(self.first, self.second, |a: P1::Output, b: P2::Output| (a, b), before, after, r)
    }

    fn parse_next(&mut self, input: &mut I) -> (r: PResult<(P1::Output, P2::Output), P1::Error>) {
        let ghost before = *input;
        let r1 = self.first.parse_next(input);
        let ghost g1 = r1;
        let ghost mid = *input;
        match r1 {
            Ok(a) => {
                proof {
                    I::lemma_advanced_wf(before, mid);
                }
                let r2 = self.second.parse_next(input);
                let ghost g2 = r2;
                proof {
                    I::lemma_advanced_trans(before, mid, *input);
                    assert(self.first.spec_parse(before, mid, g1));
                    assert(self.second.spec_parse(mid, *input, g2));
                }
                match r2 {
                    Ok(b) => Ok((a, b)),
                    Err(e) => Err(e),
                }
            }
            Err(e) => {
                assert(self.first.spec_parse(before, mid, g1));
                Err(e)
            }
        }
    }
}

} // verus!
