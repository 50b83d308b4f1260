//! The result of running a slice parser.
use vstd::prelude::*;
use super::error::{CommittedStatus, ParseError, committed_or, committed_of};

verus! {

/// A value and the number of elements consumed, or an error and whether the
/// failure is committed.
#[derive(Debug, Clone, PartialEq, Eq)]
pub enum ParseResult<A> {
    Success { value: A, length: usize },
    Failure { error: ParseError, committed_status: CommittedStatus },
}

/// `r` with its committed status made `Committed` when `b` holds (failures only).
pub open spec fn spec_with_committed_fallback<A>(r: ParseResult<A>, b: bool) -> ParseResult<A> {
    match r {
        ParseResult::Failure { error, committed_status } => ParseResult::Failure {
            error,
            committed_status: committed_or(committed_status, committed_of(b)),
        },
        _ => r,
    }
}

/// `r` with `n` added to the length of a success.
pub open spec fn spec_with_add_length<A>(r: ParseResult<A>, n: int) -> ParseResult<A> {
    match r {
        ParseResult::Success { value, length } => ParseResult::Success { value, length: (length + n) as usize },
        _ => r,
    }
}

/// `r` with a failure made uncommitted.
pub open spec fn spec_with_uncommitted<A>(r: ParseResult<A>) -> ParseResult<A> {
    match r {
        ParseResult::Failure { error, .. } => ParseResult::Failure { error, committed_status: CommittedStatus::Uncommitted },
        _ => r,
    }
}

/// `r` is the failure `r0`, passed on unchanged.
pub open spec fn passes_failure<A, B>(r: ParseResult<A>, r0: ParseResult<B>) -> bool {
    r0 matches ParseResult::Failure { error, committed_status }
        && r == (ParseResult::<A>::Failure { error, committed_status })
}

/// `r` is an uncommitted `Mismatch` at `offset` after `length` elements, with
/// the message `message`.
pub open spec fn is_mismatch<A>(r: ParseResult<A>, offset: int, length: int, message: Seq<char>) -> bool {
    r matches ParseResult::Failure {
        error: ParseError::Mismatch { offset: o, length: l, message: m },
        committed_status: c,
    } && o == offset && l == length && m@ == message && c == CommittedStatus::Uncommitted
}

/// `r` is an uncommitted `Incomplete` failure.
pub open spec fn is_incomplete<A>(r: ParseResult<A>) -> bool {
    r == ParseResult::<A>::Failure { error: ParseError::Incomplete, committed_status: CommittedStatus::Uncommitted }
}

/// `r` is an uncommitted `Custom` failure at `offset` with no cause and the
/// message `message`.
pub open spec fn is_custom<A>(r: ParseResult<A>, offset: int, message: Seq<char>) -> bool {
    r matches ParseResult::Failure {
        error: ParseError::Custom { offset: o, parent: None, message: m },
        committed_status: c,
    } && o == offset && m@ == message && c == CommittedStatus::Uncommitted
}

impl<A> ParseResult<A> {
    /// A success with `value` after consuming `length` elements.
    pub fn successful(value: A, length: usize) -> (r: ParseResult<A>)
        ensures
            r == (ParseResult::Success { value, length }),
    {
        ParseResult::Success { value, length }
    }

    /// A failure with the given committed status.
    pub fn failed(error: ParseError, committed_status: CommittedStatus) -> (r: ParseResult<A>)
        ensures
            r == (ParseResult::<A>::Failure { error, committed_status }),
    {
        ParseResult::Failure { error, committed_status }
    }

    /// An uncommitted failure.
    pub fn failed_with_uncommitted(error: ParseError) -> (r: ParseResult<A>)
        ensures
            r == (ParseResult::<A>::Failure { error, committed_status: CommittedStatus::Uncommitted }),
    {
        ParseResult::Failure { error, committed_status: CommittedStatus::Uncommitted }
    }

    /// A committed failure.
    pub fn failed_with_commit(error: ParseError) -> (r: ParseResult<A>)
        ensures
            r == (ParseResult::<A>::Failure { error, committed_status: CommittedStatus::Committed }),
    {
        ParseResult::Failure { error, committed_status: CommittedStatus::Committed }
    }

    /// `true` for a success.
    pub fn is_success(&self) -> (b: bool)
        ensures
            b == (*self is Success),
    {
        match self {
            ParseResult::Success { .. } => true,
            _ => false,
        }
    }

    /// `true` for a failure.
    pub fn is_failure(&self) -> (b: bool)
        ensures
            b == (*self is Failure),
    {
        match self {
            ParseResult::Failure { .. } => true,
            _ => false,
        }
    }

    /// The value of a success.
    pub fn success(self) -> (v: Option<A>)
        ensures
            match self {
                ParseResult::Success { value, .. } => v == Some(value),
                ParseResult::Failure { .. } => v is None,
            },
    {
        match self {
            ParseResult::Success { value, .. } => Some(value),
            _ => None,
        }
    }

    /// The error of a failure.
    pub fn failure(self) -> (e: Option<ParseError>)
        ensures
            match self {
                ParseResult::Failure { error, .. } => e == Some(error),
                ParseResult::Success { .. } => e is None,
            },
    {
        match self {
            ParseResult::Failure { error, .. } => Some(error),
            _ => None,
        }
    }

    /// The committed status of a failure.
    pub fn committed_status(&self) -> (c: Option<CommittedStatus>)
        ensures
            match *self {
                ParseResult::Failure { committed_status, .. } => c == Some(committed_status),
                ParseResult::Success { .. } => c is None,
            },
    {
        match self {
            ParseResult::Failure { committed_status, .. } => Some(*committed_status),
            _ => None,
        }
    }

    /// The same result with a failure made uncommitted.
    pub fn with_uncommitted(self) -> (r: ParseResult<A>)
        ensures
            r == spec_with_uncommitted(self),
    {
        match self {
            ParseResult::Failure { error, .. } => ParseResult::Failure {
                error,
                committed_status: CommittedStatus::Uncommitted,
            },
            _ => self,
        }
    }

    /// The same result with a failure made committed when `is_committed` holds.
    pub fn with_committed_fallback(self, is_committed: bool) -> (r: ParseResult<A>)
        ensures
            r == spec_with_committed_fallback(self, is_committed),
    {
        match self {
            ParseResult::Failure { error, committed_status } => ParseResult::Failure {
                error,
                committed_status: committed_status.or(&CommittedStatus::from_bool(is_committed)),
            },
            _ => self,
        }
    }

    /// The same result with `n` added to the length of a success.
    pub fn with_add_length(self, n: usize) -> (r: ParseResult<A>)
        requires
            self matches ParseResult::Success { length, .. } ==> length + n <= usize::MAX,
        ensures
            r == spec_with_add_length(self, n as int),
    {
        match self {
            ParseResult::Success { value, length } => ParseResult::Success { value, length: length + n },
            _ => self,
        }
    }

    /// The value of a success or the error of a failure.
    pub fn to_result(self) -> (r: Result<A, ParseError>)
        ensures
            match self {
                ParseResult::Success { value, .. } => r == Ok::<A, ParseError>(value),
                ParseResult::Failure { error, .. } => r == Err::<A, ParseError>(error),
            },
    {
        match self {
            ParseResult::Success { value, .. } => Ok(value),
            ParseResult::Failure { error, .. } => Err(error),
        }
    }
}

} // verus!
