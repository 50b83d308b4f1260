//! The names most programs need, and `between`.
use vstd::prelude::*;

pub mod scanning;
pub mod static_parsers;
pub use crate::parser::Parser;
pub use crate::parser_ext::ParserExt;
pub use crate::str_input::StrInput;
pub use crate::text::char::char;
pub use crate::text::eof::eof;
pub use crate::text::escaped::escaped;
pub use crate::text::identifier::identifier;
pub use crate::text::integer::integer;
pub use crate::text::quoted_string::quoted_string;
pub use crate::text::satisfy::satisfy;
pub use crate::text::tag::tag;
pub use crate::text::take_while0::take_while0;
pub use crate::text::take_while1::take_while1;
use crate::combinator::zip_left::ZipLeft;
use crate::combinator::zip_right::ZipRight;
use crate::input::Input;

verus! {

/// Runs `left`, `parser`, `right` in order and keeps the value of `parser`.
pub fn between<I, L, P, R>(left: L, parser: P, right: R) -> (r: ZipRight<L, ZipLeft<P, R>>) where
    I: Input,
    L: Parser<I>,
    P: Parser<I, Error = L::Error>,
    R: Parser<I, Error = L::Error>,
    ensures
        r.first == left,
        r.second.first == parser,
        r.second.second == right,
{
    ZipRight { first: left, second: ZipLeft { first: parser, second: right } }
}

} // verus!
