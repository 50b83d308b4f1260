//! Errors of the slice parsers and whether a failure is committed.
use vstd::prelude::*;

verus! {

/// Whether a failure commits the parse: a committed failure is not recovered
/// from by `or`, `opt` and the repetitions.
#[derive(Debug, Clone, Copy, PartialEq, Eq, Structural)]
pub enum CommittedStatus {
    Committed,
    Uncommitted,
}

impl CommittedStatus {
    /// `true` for `Committed`.
    pub fn is_committed(&self) -> (b: bool)
        ensures
            b == (*self == CommittedStatus::Committed),
    {
        match self {
            CommittedStatus::Committed => true,
            CommittedStatus::Uncommitted => false,
        }
    }

    /// `true` for `Uncommitted`.
    pub fn is_uncommitted(&self) -> (b: bool)
        ensures
            b == (*self == CommittedStatus::Uncommitted),
    {
        match self {
            CommittedStatus::Committed => false,
            CommittedStatus::Uncommitted => true,
        }
    }

    /// Committed when either status is.
    pub fn or(&self, other: &CommittedStatus) -> (r: CommittedStatus)
        ensures
            r == committed_or(*self, *other),
    {
        match (self, other) {
            (CommittedStatus::Committed, _) => CommittedStatus::Committed,
            (_, CommittedStatus::Committed) => CommittedStatus::Committed,
            _ => CommittedStatus::Uncommitted,
        }
    }

    /// `Committed` for `true`, `Uncommitted` for `false`.
    pub fn from_bool(b: bool) -> (r: CommittedStatus)
        ensures
            r == committed_of(b),
    {
        if b {
            CommittedStatus::Committed
        } else {
            CommittedStatus::Uncommitted
        }
    }
}

/// Committed when either status is.
pub open spec fn committed_or(a: CommittedStatus, b: CommittedStatus) -> CommittedStatus {
    if a == CommittedStatus::Committed || b == CommittedStatus::Committed {
        CommittedStatus::Committed
    } else {
        CommittedStatus::Uncommitted
    }
}

/// `Committed` for `true`, `Uncommitted` for `false`.
pub open spec fn committed_of(b: bool) -> CommittedStatus {
    if b {
        CommittedStatus::Committed
    } else {
        CommittedStatus::Uncommitted
    }
}

/// The text of an error: its message, or `incomplete input`.
pub open spec fn error_text(e: ParseError) -> Seq<char> {
    match e {
        ParseError::Mismatch { message, .. } => message@,
        ParseError::Conversion { message, .. } => message@,
        ParseError::Custom { message, .. } => message@,
        ParseError::Incomplete => "incomplete input"@,
    }
}

/// Why a slice parser failed.
#[derive(Debug, PartialEq, Eq)]
pub enum ParseError {
    /// The input did not match at `offset`; `length` elements were read.
    Mismatch { offset: usize, length: usize, message: String },
    /// A value could not be converted at `offset`.
    Conversion { offset: usize, length: usize, message: String },
    /// The input ended before the parser could decide.
    Incomplete,
    /// A failure described by `message`, possibly wrapping the error that caused it.
    Custom { offset: usize, parent: Option<Box<ParseError>>, message: String },
}

impl ParseError {
    /// A mismatch at `offset` after reading `length` elements.
    pub fn of_mismatch(offset: usize, length: usize, message: String) -> (e: ParseError)
        ensures
            e == (ParseError::Mismatch { offset, length, message }),
    {
        ParseError::Mismatch { offset, length, message }
    }

    /// A conversion failure at `offset`.
    pub fn of_conversion(offset: usize, length: usize, message: String) -> (e: ParseError)
        ensures
            e == (ParseError::Conversion { offset, length, message }),
    {
        ParseError::Conversion { offset, length, message }
    }

    /// The input ended too early.
    pub fn of_in_complete() -> (e: ParseError)
        ensures
            e == ParseError::Incomplete,
    {
        ParseError::Incomplete
    }

    /// A failure at `offset` described by `message`, caused by `parent` if given.
    pub fn of_custom(offset: usize, parent: Option<ParseError>, message: String) -> (e: ParseError)
        ensures
            e == (ParseError::Custom {
                offset,
                parent: match parent {
                    Some(p) => Some(Box::new(p)),
                    None => None,
                },
                message,
            }),
    {
        let parent = match parent {
            Some(p) => Some(Box::new(p)),
            None => None,
        };
        ParseError::Custom { offset, parent, message }
    }

    /// `true` for `Incomplete`.
    pub fn is_in_complete(&self) -> (b: bool)
        ensures
            b == (*self is Incomplete),
    {
        match self {
            ParseError::Incomplete => true,
            _ => false,
        }
    }

    /// The message, or `None` for `Incomplete`.
    pub fn message(&self) -> (m: Option<&str>)
        ensures
            match *self {
                ParseError::Mismatch { message, .. } => m matches Some(s) && s@ == message@,
                ParseError::Conversion { message, .. } => m matches Some(s) && s@ == message@,
                ParseError::Custom { message, .. } => m matches Some(s) && s@ == message@,
                ParseError::Incomplete => m is None,
            },
    {
        match self {
            ParseError::Mismatch { message, .. } => Some(message.as_str()),
            ParseError::Conversion { message, .. } => Some(message.as_str()),
            ParseError::Custom { message, .. } => Some(message.as_str()),
            ParseError::Incomplete => None,
        }
    }

    /// A text for the error: its message, or `incomplete input`.
    pub fn describe(&self) -> (s: String)
        ensures
            s@ == error_text(*self),
    {
        match self {
            ParseError::Mismatch { message, .. } => message.clone(),
            ParseError::Conversion { message, .. } => message.clone(),
            ParseError::Custom { message, .. } => message.clone(),
            ParseError::Incomplete => "incomplete input".to_owned(),
        }
    }

    /// An equal copy of the error.
    pub fn duplicate(&self) -> (e: ParseError)
        ensures
            e == *self,
        decreases *self,
    {
        match self {
            ParseError::Mismatch { offset, length, message } => ParseError::Mismatch {
                offset: *offset,
                length: *length,
                message: message.clone(),
            },
            ParseError::Conversion { offset, length, message } => ParseError::Conversion {
                offset: *offset,
                length: *length,
                message: message.clone(),
            },
            ParseError::Incomplete => ParseError::Incomplete,
            ParseError::Custom { offset, parent, message } => {
                let parent = match parent {
                    Some(p) => Some(Box::new((**p).duplicate())),
                    None => None,
                };
                ParseError::Custom { offset: *offset, parent, message: message.clone() }
            },
        }
    }
}

impl Clone for ParseError {
    fn clone(&self) -> (e: ParseError)
        ensures
            e == *self,
    {
        self.duplicate()
    }
}

} // verus!
