//! Transforming a parser's value.
use vstd::prelude::*;
use crate::fail::PResult;
use crate::input::Input;
use crate::parser::Parser;

verus! {

/// Applies `f` to the value of `parser`; failures pass through unchanged.
pub struct Mapped<P, F> {
    pub parser: P,
    pub f: F,
}

impl<I: Input, P: Parser<I>, F: Fn(P::Output) -> O2, O2> Parser<I> for Mapped<P, F> {
    type Output = O2;
    type Error = P::Error;

    open spec fn inv(&self) -> bool {
        &&& self.parser.inv()
        &&& forall|v: P::Output| call_requires(self.f, (v,))
    }

    open spec fn spec_parse(&self, before: I, after: I, r: PResult<O2, P::Error>) -> bool {
        exists|ri: PResult<P::Output, P::Error>| #[trigger] self.parser.spec_parse(before, after, ri) && match ri {
            Ok(v) => exists|o: O2| #[trigger] call_ensures(self.f, (v,), o) && r == Ok::<O2, crate::fail::Fail<P::Error>>(o),
            Err(e) => r == Err::<O2, crate::fail::Fail<P::Error>>(e),
        }
    }

    fn parse_next(&mut self, input: &mut I) -> (r: PResult<O2, P::Error>) {
        let ri = self.parser.parse_next(input);
        let ghost gi = ri;
        match ri {
            Ok(v) => {
                let o = (self.f)(v);
                assert(self.parser.spec_parse(*old(input), *input, gi));
                Ok(o)
            }
            Err(e) => {
                assert(self.parser.spec_parse(*old(input), *input, gi));
                Err(e)
            }
        }
    }
}

} // verus!
