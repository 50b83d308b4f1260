use oni_comb_parser::parser::Parser;
use oni_comb_parser::parser_ext::ParserExt;
use oni_comb_parser::prelude::{char, tag, take_while1, StrInput};

#[test]
fn char_or_with_prelude() {
    let mut p = char('a').or(char('b'));
    let mut input = StrInput::new("b");
    assert_eq!(p.parse_next(&mut input).unwrap(), 'b');
}

#[test]
fn tag_then_with_prelude() {
    let mut p = tag("hello").zip(tag(" world"));
    let mut input = StrInput::new("hello world");
    assert_eq!(p.parse_next(&mut input).unwrap(), ("hello", " world"));
}

#[test]
fn take_while1_with_prelude() {
    let mut p = take_while1(|c: char| c.is_ascii_digit());
    let mut input = StrInput::new("42abc");
    assert_eq!(p.parse_next(&mut input).unwrap(), "42");
}
