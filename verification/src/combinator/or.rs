//! Trying an alternative after a backtracking failure.
use vstd::prelude::*;
use crate::fail::{Fail, PResult};
use crate::input::Input;
use crate::parser::Parser;

verus! {

/// Runs `left`; when it fails with `Backtrack`, rewinds the input and runs `right`.
/// Any other outcome of `left` (a value, `Cut`, `ZeroProgress`) is returned as is.
pub struct Or<P1, P2> {
    pub left: P1,
    pub right: P2,
}

impl<I: Input, P1: Parser<I>, P2: Parser<I, Output = P1::Output, Error = P1::Error>> Parser<I> for Or<P1, P2> {
    type Output = P1::Output;
    type Error = P1::Error;

    open spec fn inv(&self) -> bool {
        self.left.inv() && self.right.inv()
    }

    open spec fn spec_parse(&self, before: I, after: I, r: PResult<P1::Output, P1::Error>) -> bool {
        exists|mid: I, r1: PResult<P1::Output, P1::Error>|
            #![trigger self.left.spec_parse(before, mid, r1)]
            self.left.spec_parse(before, mid, r1) && before.advanced(mid) && match r1 {
                Err(Fail::Backtrack(_)) => self.right.spec_parse(before, after, r),
                _ => after == mid && r == r1,
            }
    }

    fn parse_next(&mut self, input: &mut I) -> (r: PResult<P1::Output, P1::Error>) {
        let ghost before = *input;
        let cp = input.checkpoint();
        let r1 = self.left.parse_next(input);
        let ghost g1 = r1;
        let ghost mid = *input;
        proof {
            assert(self.left.spec_parse(before, mid, g1));
        }
        match r1 {
            Err(Fail::Backtrack(e)) => {
                proof {
                    I::lemma_reset_restores(before, mid);
                    I::lemma_advanced_wf(before, mid);
                }
                input.reset(cp);
                self.right.parse_next(input)
            }
            other => other,
        }
    }
}

} // verus!
