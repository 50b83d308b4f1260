//! The trait of the slice parsers.
use vstd::prelude::*;
use super::error::ParseError;
use super::result::ParseResult;

verus! {

/// A parser over a slice of `I`. Running it at an offset gives a value and the
/// number of elements consumed from there, or an error.
///
/// `accepts(input, offset, r)` says which results are possible when the parser
/// runs on `input` from `offset`.
pub trait ParserRunner<'a, I: 'a> {
    type Output;

    /// Conditions under which the parser may run (for example, that its closures
    /// may be called on any argument).
    spec fn inv(&self) -> bool;

    /// The possible results of a run on `input` from `offset`.
    spec fn accepts(&self, input: Seq<I>, offset: int, r: ParseResult<Self::Output>) -> bool;

    /// Runs the parser on `input` from `offset`; a success consumes elements that
    /// are there.
    fn run(&self, input: &'a [I], offset: usize) -> (r: ParseResult<Self::Output>)
        requires
            self.inv(),
            offset <= input@.len(),
        ensures
            self.accepts(input@, offset as int, r),
            r matches ParseResult::Success { length, .. } ==> offset + length <= input@.len(),
    ;

    /// Runs the parser on the whole of `input`.
    fn parse(&self, input: &'a [I]) -> (r: ParseResult<Self::Output>)
        requires
            self.inv(),
        ensures
            self.accepts(input@, 0, r),
            r matches ParseResult::Success { length, .. } ==> length <= input@.len(),
    {
        self.run(input, 0)
    }

    /// Runs the parser on the whole of `input` and gives its value or its error.
    fn parse_as_result(&self, input: &'a [I]) -> (r: Result<Self::Output, ParseError>)
        requires
            self.inv(),
        ensures
            exists|p: ParseResult<Self::Output>| #[trigger] self.accepts(input@, 0, p) && match p {
                ParseResult::Success { value, .. } => r == Ok::<Self::Output, ParseError>(value),
                ParseResult::Failure { error, .. } => r == Err::<Self::Output, ParseError>(error),
            },
    {
        let p = self.run(input, 0);
        let ghost g = p;
        let r = p.to_result();
        assert(self.accepts(input@, 0, g));
        r
    }
}

} // verus!
