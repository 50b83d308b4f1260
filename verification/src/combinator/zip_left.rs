//! Running two parsers in sequence and keeping the first value.
use vstd::prelude::*;
use crate::fail::PResult;
use crate::input::Input;
use crate::parser::Parser;
use super::zip::seq_outcome;

verus! {

/// Runs `first`, then `second`; succeeds with the first value.
pub struct ZipLeft<P1, P2> {
    pub first: P1,
    pub second: P2,
}

impl<I: Input, P1: Parser<I>, P2: Parser<I, Error = P1::Error>> Parser<I> for ZipLeft<P1, P2> {
    type Output = P1::Output;
    type Error = P1::Error;

    open spec fn inv(&self) -> bool {
        self.first.inv() && self.second.inv()
    }

    open spec fn spec_parse(&self, before: I, after: I, r: PResult<P1::Output, P1::Error>) -> bool {
        seq_outcome(self.first, self.second, |a: P1::Output, b: P2::Output| a, before, after, r)
    }

    fn parse_next(&mut self, input: &mut I) -> (r: PResult<P1::Output, P1::Error>) {
        let ghost before = *input;
        let r1 = self.first.parse_next(input);
        let ghost g1 = r1;
        let ghost mid = *input;
        match r1 {
            Ok(a) => {
                proof {
                    I::lemma_advanced_wf(before, mid);
                }
                let r2 = self.second.parse_next(input);
                let ghost g2 = r2;
                proof {
                    I::lemma_advanced_trans(before, mid, *input);
                    assert(self.first.spec_parse(before, mid, g1));
                    assert(self.second.spec_parse(mid, *input, g2));
                }
                match r2 {
                    Ok(_) => Ok(a),
                    Err(e) => Err(e),
                }
            }
            Err(e) => {
                assert(self.first.spec_parse(before, mid, g1));
                Err(e)
            }
        }
    }
}

} // verus!
