use oni_comb_parser::prelude::scanning::{take_while0, take_while1, take_while_n_m};
use oni_comb_parser::static_parser::error::{CommittedStatus, ParseError};
use oni_comb_parser::static_parser::ext::StaticParserExt;
use oni_comb_parser::static_parser::result::ParseResult;
use oni_comb_parser::static_parser::runner::ParserRunner;

#[test]
fn test_take_while0() {
    let p = take_while0(|c: &u8| c.is_ascii_digit()).map_res(std::str::from_utf8);

    let result = p.parse_as_result(b"a123b");
    assert!(result.is_ok());
    assert_eq!(result.unwrap(), "123");

    let result = p.parse_as_result(b"def");
    assert!(result.is_ok());
}

#[test]
fn test_take_while1() {
    let p = take_while1(|c: &u8| c.is_ascii_digit()).map_res(std::str::from_utf8);

    let result = p.parse_as_result(b"a123b");
    assert!(result.is_ok());
    assert_eq!(result.unwrap(), "123");

    let result = p.parse_as_result(b"def");
    assert!(result.is_err());
}

#[test]
fn test_take_while_n_m() {
    let p = take_while_n_m(1, 3, |c: &u8| c.is_ascii_digit()).map_res(std::str::from_utf8);

    let result = p.parse_as_result(b"a1b");
    assert!(result.is_ok());
    assert_eq!(result.unwrap(), "1");

    let result = p.parse_as_result(b"a12b");
    assert!(result.is_ok());
    assert_eq!(result.unwrap(), "12");

    let result = p.parse_as_result(b"a123b");
    assert!(result.is_ok());
    assert_eq!(result.unwrap(), "123");

    let result = p.parse_as_result(b"a1234b");
    assert!(result.is_err());

    let result = p.parse_as_result(b"def");
    assert!(result.is_err());
}

#[test]
fn scanning_consumes_the_skipped_elements_with_the_run() {
    let input = b"ab12c".to_vec();
    assert_eq!(
        take_while1(|c: &u8| c.is_ascii_digit()).parse(&input),
        ParseResult::Success { value: &b"12"[..], length: 4 }
    );
    assert_eq!(
        take_while0(|c: &u8| c.is_ascii_digit()).parse(&b"abc"[..]),
        ParseResult::Success { value: &b""[..], length: 0 }
    );
    assert_eq!(
        take_while1(|c: &u8| c.is_ascii_digit()).parse(&b"abc"[..]),
        ParseResult::Failure { error: ParseError::Incomplete, committed_status: CommittedStatus::Uncommitted }
    );
    assert_eq!(
        take_while_n_m(0, 2, |c: &u8| c.is_ascii_digit()).parse(&b"x123"[..]),
        ParseResult::Failure { error: ParseError::Incomplete, committed_status: CommittedStatus::Uncommitted }
    );
}
