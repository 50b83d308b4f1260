//! A parser-combinator library with two families of parsers: the `Parser`
//! trait over `StrInput` (UTF-8 text, Backtrack / Cut failures) and the
//! slice-based parsers of `static_parsers`, whose results carry the consumed
//! length and a committed status.
pub mod chars;
pub mod combinator;
pub mod error;
pub mod fail;
pub mod input;
pub mod laws;
mod message;
pub mod parser;
mod string_ops;
pub mod str_input;
pub mod text;
pub mod parser_ext;
pub mod prelude;
pub mod static_parser;
pub mod utils;
