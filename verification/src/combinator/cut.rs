//! Committing to a branch.
use vstd::prelude::*;
use crate::fail::{Fail, PResult};
use crate::input::Input;
use crate::parser::Parser;

verus! {

/// Runs `parser`; a `Backtrack` failure becomes `Cut`, so no alternative is tried.
pub struct Cut<P> {
    pub parser: P,
}

impl<I: Input, P: Parser<I>> Parser<I> for Cut<P> {
    type Output = P::Output;
    type Error = P::Error;

    open spec fn inv(&self) -> bool {
        self.parser.inv()
    }

    open spec fn spec_parse(&self, before: I, after: I, r: PResult<P::Output, P::Error>) -> bool {
        exists|ri: PResult<P::Output, P::Error>| #[trigger] self.parser.spec_parse(before, after, ri) && match ri {
            Err(Fail::Backtrack(e)) => r == Err::<P::Output, Fail<P::Error>>(Fail::Cut(e)),
            _ => r == ri,
        }
    }

    fn parse_next(&mut self, input: &mut I) -> (r: PResult<P::Output, P::Error>) {
        let ri = self.parser.parse_next(input);
        let ghost gi = ri;
        proof {
            assert(self.parser.spec_parse(*old(input), *input, gi));
        }
        match ri {
            Err(Fail::Backtrack(e)) => Err(Fail::Cut(e)),
            other => other,
        }
    }
}

} // verus!
