//! Ranges and sets of elements used by the slice parsers.
pub mod range;
pub mod set;
