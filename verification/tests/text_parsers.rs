use oni_comb_parser::error::{Expected, ParseError};
use oni_comb_parser::fail::Fail;
use oni_comb_parser::input::Input;
use oni_comb_parser::parser::Parser;
use oni_comb_parser::parser_ext::ParserExt;
use oni_comb_parser::prelude::{between, char, escaped, identifier, integer, quoted_string, tag, StrInput};
use oni_comb_parser::text::quoted_string_cow::{quoted_string_cow, CowStr};

fn single_quote_handler(c: char) -> Option<char> {
    match c {
        '\'' => Some('\''),
        '\\' => Some('\\'),
        'n' => Some('\n'),
        _ => None,
    }
}

#[test]
fn escaped_decodes_escape_sequences() {
    let mut p = escaped('\'', '\'', '\\', single_quote_handler);
    let mut input = StrInput::new("'it\\'s\\n' rest");
    assert_eq!(p.parse_next(&mut input), Ok(String::from("it's\n")));
    assert_eq!(input.remaining(), " rest");
}

#[test]
fn escaped_without_opening_delimiter_backtracks() {
    let mut p = escaped('\'', '\'', '\\', single_quote_handler);
    let mut input = StrInput::new("abc");
    assert_eq!(p.parse_next(&mut input), Err(Fail::Backtrack(String::from("escaped: expected '''"))));
    assert_eq!(input.offset(), 0);
}

#[test]
fn escaped_reports_each_failure() {
    let mut p = escaped('\'', '\'', '\\', single_quote_handler);
    let mut input = StrInput::new("'abc");
    assert_eq!(p.parse_next(&mut input), Err(Fail::Cut(String::from("escaped: unterminated, expected '''"))));
    assert_eq!(input.offset(), 0);
    let mut input = StrInput::new("'a\\");
    assert_eq!(p.parse_next(&mut input), Err(Fail::Cut(String::from("escaped: unexpected EOF after '\\'"))));
    let mut input = StrInput::new("'a\\q'");
    assert_eq!(p.parse_next(&mut input), Err(Fail::Cut(String::from("escaped: invalid escape sequence '\\q' "))));
}

#[test]
fn quoted_string_decodes_json_escapes() {
    let mut p = quoted_string();
    let mut input = StrInput::new("\"a\\tb\\u0041\" tail");
    assert_eq!(p.parse_next(&mut input), Ok(String::from("a\tbA")));
    assert_eq!(input.remaining(), " tail");
}

#[test]
fn quoted_string_reports_bad_escape() {
    let mut p = quoted_string();
    let mut input = StrInput::new("\"a\\x\"");
    assert_eq!(p.parse_next(&mut input), Err(Fail::Cut(String::from("quoted_string: invalid escape sequence '\\x'"))));
}

#[test]
fn quoted_string_cow_borrows_plain_text() {
    let mut p = quoted_string_cow();
    let mut input = StrInput::new("\"plain\"");
    match p.parse_next(&mut input) {
        Ok(CowStr::Borrowed(s)) => assert_eq!(s, "plain"),
        _ => panic!(),
    }
    let mut input = StrInput::new("\"a\\nb\"");
    match p.parse_next(&mut input) {
        Ok(CowStr::Owned(s)) => assert_eq!(s, "a\nb"),
        _ => panic!(),
    }
    let mut input = StrInput::new("\"open");
    assert_eq!(
        p.parse_next(&mut input).err(),
        Some(Fail::Cut(ParseError { position: 5, expected: Expected::Char('"') }))
    );
}

#[test]
fn identifier_and_integer() {
    let mut id = identifier();
    let mut input = StrInput::new("_foo9 bar");
    assert_eq!(id.parse_next(&mut input), Ok("_foo9"));
    let mut input = StrInput::new("9foo");
    assert!(matches!(id.parse_next(&mut input), Err(Fail::Backtrack(_))));
    let mut int = integer();
    let mut input = StrInput::new("-42x");
    assert_eq!(int.parse_next(&mut input), Ok(-42));
    let mut input = StrInput::new("99999999999999999999");
    assert_eq!(
        int.parse_next(&mut input),
        Err(Fail::Backtrack(String::from("integer: number too large to fit in target type")))
    );
}

#[test]
fn between_keeps_the_middle_value() {
    let mut p = between(char('('), char('x'), char(')'));
    let mut input = StrInput::new("(x)");
    assert_eq!(p.parse_next(&mut input), Ok('x'));
    assert!(input.is_eof());
}

#[test]
fn tag_mismatch_message_shows_what_was_found() {
    let mut p = tag("abc");
    let mut input = StrInput::new("abd");
    assert_eq!(p.parse_next(&mut input), Err(Fail::Backtrack(String::from("expected \"abc\", found \"abd\""))));
}

#[test]
fn cut_then_or_does_not_try_the_alternative() {
    let mut p = char('a').cut().or(char('b'));
    let mut input = StrInput::new("b");
    assert!(matches!(p.parse_next(&mut input), Err(Fail::Cut(_))));
    let mut q = char('a').cut().attempt().or(char('b'));
    let mut input = StrInput::new("b");
    assert_eq!(q.parse_next(&mut input), Ok('b'));
}

#[test]
fn checkpoint_reset_rewinds_after_a_parse() {
    let mut input = StrInput::new("abc");
    let cp = input.checkpoint();
    let mut p = tag("ab");
    assert!(p.parse_next(&mut input).is_ok());
    assert_eq!(input.offset(), 2);
    input.reset(cp);
    assert_eq!(input.offset(), 0);
    assert_eq!(input.remaining(), "abc");
}

#[test]
fn identifier_reads_the_whole_identifier_or_backtracks() {
    let mut input = StrInput::new("foo_bar_123!");
    assert_eq!(identifier().parse_next(&mut input), Ok("foo_bar_123"));
    assert_eq!(input.offset(), 11);
    let mut input = StrInput::new("123abc");
    assert!(matches!(identifier().parse_next(&mut input), Err(Fail::Backtrack(_))));
    assert_eq!(input.offset(), 0);
}

#[test]
fn escaped_failures_leave_the_input_in_place() {
    let mut p = escaped('"', '"', '\\', |c: char| if c == 'n' { Some('\n') } else { None });
    let mut input = StrInput::new("abc");
    assert!(matches!(p.parse_next(&mut input), Err(Fail::Backtrack(_))));
    assert_eq!(input.offset(), 0);
    let mut input = StrInput::new("\"abc");
    assert!(matches!(p.parse_next(&mut input), Err(Fail::Cut(_))));
    assert_eq!(input.offset(), 0);
    let mut input = StrInput::new("\"a\\qb\"");
    assert!(matches!(p.parse_next(&mut input), Err(Fail::Cut(_))));
    assert_eq!(input.offset(), 0);
    let mut input = StrInput::new("\"a\\nb\"x");
    assert_eq!(p.parse_next(&mut input), Ok(String::from("a\nb")));
    assert_eq!(input.offset(), 6);
}

#[test]
fn quoted_string_cow_borrows_exactly_unescaped_text() {
    let mut input = StrInput::new("\"abc\"rest");
    match quoted_string_cow().parse_next(&mut input) {
        Ok(CowStr::Borrowed(s)) => assert_eq!(s, "abc"),
        _ => panic!(),
    }
    assert_eq!(input.offset(), 5);
    let mut input = StrInput::new("\"ab\\tc\"");
    assert!(matches!(quoted_string_cow().parse_next(&mut input), Ok(CowStr::Owned(_))));
}
