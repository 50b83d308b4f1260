//! Choosing the next parser from the value of the first.
use vstd::prelude::*;
use crate::fail::{Fail, PResult};
use crate::input::Input;
use crate::parser::Parser;

verus! {

/// Runs `parser`, passes its value to `f`, and runs the parser that `f` returns.
pub struct FlatMap<P, F> {
    pub parser: P,
    pub f: F,
}

impl<I: Input, P: Parser<I>, P2: Parser<I, Error = P::Error>, F: Fn(P::Output) -> P2> Parser<I> for FlatMap<P, F> {
    type Output = P2::Output;
    type Error = P::Error;

    open spec fn inv(&self) -> bool {
        &&& self.parser.inv()
        &&& forall|v: P::Output| call_requires(self.f, (v,))
        &&& forall|v: P::Output, q: P2| call_ensures(self.f, (v,), q) ==> q.inv()
    }

    open spec fn spec_parse(&self, before: I, after: I, r: PResult<P2::Output, P::Error>) -> bool {
        exists|mid: I, r1: PResult<P::Output, P::Error>|
            #![trigger self.parser.spec_parse(before, mid, r1)]
            self.parser.spec_parse(before, mid, r1) && before.advanced(mid) && match r1 {
                Err(e) => after == mid && r == Err::<P2::Output, Fail<P::Error>>(e),
                Ok(v) => exists|q: P2| #[trigger] call_ensures(self.f, (v,), q) && q.spec_parse(mid, after, r),
            }
    }

    fn parse_next(&mut self, input: &mut I) -> (r: PResult<P2::Output, P::Error>) {
        let ghost before = *input;
        let r1 = self.parser.parse_next(input);
        let ghost g1 = r1;
        let ghost mid = *input;
        proof {
            assert(self.parser.spec_parse(before, mid, g1));
        }
        match r1 {
            Ok(v) => {
                let mut q = (self.f)(v);
                proof {
                    I::lemma_advanced_wf(before, mid);
                }
                let r = q.parse_next(input);
                proof {
                    I::lemma_advanced_trans(before, mid, *input);
                }
                r
            }
            Err(e) => Err(e),
        }
    }
}

} // verus!
