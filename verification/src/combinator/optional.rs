//! Turning a backtracking failure into `None`.
use vstd::prelude::*;
use crate::fail::{Fail, PResult};
use crate::input::Input;
use crate::parser::Parser;

verus! {

/// Runs `parser`; a value becomes `Some`, a `Backtrack` failure rewinds the input
/// and becomes `None`, and `Cut` / `ZeroProgress` pass through.
pub struct Optional<P> {
    pub parser: P,
}

impl<I: Input, P: Parser<I>> Parser<I> for Optional<P> {
    type Output = Option<P::Output>;
    type Error = P::Error;

    open spec fn inv(&self) -> bool {
        self.parser.inv()
    }

    open spec fn spec_parse(&self, before: I, after: I, r: PResult<Option<P::Output>, P::Error>) -> bool {
        exists|mid: I, ri: PResult<P::Output, P::Error>|
            #![trigger self.parser.spec_parse(before, mid, ri)]
            self.parser.spec_parse(before, mid, ri) && before.advanced(mid) && match ri {
                Ok(v) => after == mid && r == Ok::<Option<P::Output>, Fail<P::Error>>(Some(v)),
                Err(Fail::Backtrack(_)) => after == before && r == Ok::<Option<P::Output>, Fail<P::Error>>(None),
                Err(e) => after == mid && r == Err::<Option<P::Output>, Fail<P::Error>>(e),
            }
    }

    fn parse_next(&mut self, input: &mut I) -> (r: PResult<Option<P::Output>, P::Error>) {
        let ghost before = *input;
        let cp = input.checkpoint();
        let ri = self.parser.parse_next(input);
        let ghost gi = ri;
        let ghost mid = *input;
        proof {
            assert(self.parser.spec_parse(before, mid, gi));
        }
        match ri {
            Ok(v) => Ok(Some(v)),
            Err(Fail::Backtrack(_)) => {
                proof {
                    I::lemma_reset_restores(before, mid);
                    I::lemma_advanced_wf(before, mid);
                    before.lemma_advanced_refl();
                }
                input.reset(cp);
                Ok(None)
            }
            Err(e) => Err(e),
        }
    }
}

} // verus!
