//! Combinators of the `Parser` trait.
pub mod attempt;
pub mod cut;
pub mod flat_map;
pub mod many;
pub mod map;
pub mod optional;
pub mod or;
pub mod zip;
pub mod zip_left;
pub mod zip_right;
