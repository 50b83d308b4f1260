//! Parsers over slices of elements: each run reports the value and the number
//! of elements consumed, or an error and whether the failure is committed.
pub mod element;
pub mod error;
pub mod result;
pub mod runner;
pub mod predicate;
pub mod take;
pub mod elements;
pub mod primitives;
pub mod literal;
pub mod transform;
pub mod sequence;
pub mod choice;
pub mod position;
pub mod repeat;
pub mod ext;
pub mod parsers;
pub mod chain;
pub mod regex_parser;
pub mod laws;
