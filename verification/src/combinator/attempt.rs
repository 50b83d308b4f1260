//! Making a committed failure recoverable.
use vstd::prelude::*;
use crate::fail::{Fail, PResult};
use crate::input::Input;
use crate::parser::Parser;

verus! {

/// Runs `parser`; a `Cut` failure rewinds the input and becomes `Backtrack`.
pub struct Attempt<P> {
    pub parser: P,
}

impl<I: Input, P: Parser<I>> Parser<I> for Attempt<P> {
    type Output = P::Output;
    type Error = P::Error;

    open spec fn inv(&self) -> bool {
        self.parser.inv()
    }

    open spec fn spec_parse(&self, before: I, after: I, r: PResult<P::Output, P::Error>) -> bool {
        exists|mid: I, ri: PResult<P::Output, P::Error>|
            #![trigger self.parser.spec_parse(before, mid, ri)]
            self.parser.spec_parse(before, mid, ri) && before.advanced(mid) && match ri {
                Err(Fail::Cut(e)) => after == before && r == Err::<P::Output, Fail<P::Error>>(Fail::Backtrack(e)),
                _ => after == mid && r == ri,
            }
    }

    fn parse_next(&mut self, input: &mut I) -> (r: PResult<P::Output, P::Error>) {
        let ghost before = *input;
        let cp = input.checkpoint();
        let ri = self.parser.parse_next(input);
        let ghost gi = ri;
        let ghost mid = *input;
        proof {
            assert(self.parser.spec_parse(before, mid, gi));
        }
        match ri {
            Err(Fail::Cut(e)) => {
                proof {
                    I::lemma_reset_restores(before, mid);
                    I::lemma_advanced_wf(before, mid);
                    before.lemma_advanced_refl();
                }
                input.reset(cp);
                Err(Fail::Backtrack(e))
            }
            other => other,
        }
    }
}

} // verus!
