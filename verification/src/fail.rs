//! The failure type of the `Parser` trait.
use vstd::prelude::*;

verus! {

/// How a parse failed.
///
/// - `Backtrack`: recoverable; `or` tries its alternative, `optional` yields `None`.
/// - `Cut`: committed; alternatives are not tried.
/// - `ZeroProgress`: a repetition's item succeeded without consuming input.
#[derive(Debug, Clone, PartialEq, Eq)]
pub enum Fail<E> {
    Backtrack(E),
    Cut(E),
    ZeroProgress,
}

/// The result of one parse step.
pub type PResult<O, E> = Result<O, Fail<E>>;

} // verus!
