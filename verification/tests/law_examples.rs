use oni_comb_parser::fail::Fail;
use oni_comb_parser::input::Input;
use oni_comb_parser::parser::Parser;
use oni_comb_parser::parser_ext::ParserExt;
use oni_comb_parser::prelude::static_parsers::{
    elm_alpha, elm_alpha_digit, elm_digit, elm_digit_1_9, elm_digit_1_9_ref, elm_from_until_ref, elm_hex_digit,
    elm_in_ref, elm_multi_space, elm_oct_digit, elm_of, elm_ref, elm_space, failed_with_commit, failed_with_uncommit,
    none_of, tag, tag_no_case,
};
use oni_comb_parser::static_parser::error::{CommittedStatus, ParseError};
use oni_comb_parser::static_parser::ext::StaticParserExt;
use oni_comb_parser::static_parser::result::ParseResult;
use oni_comb_parser::static_parser::runner::ParserRunner;
use oni_comb_parser::str_input::StrInput;
use oni_comb_parser::utils::set::ElementSet;
use oni_comb_parser::prelude::static_parsers;
use oni_comb_parser::text::char::Char;
use oni_comb_parser::text::take_while0::take_while0;
use oni_comb_parser::text::take_while1::take_while1;

fn chars(s: &str) -> Vec<char> {
    s.chars().collect()
}

#[test]
fn opt_turns_an_uncommitted_failure_into_none() {
    let input = chars("a");
    assert_eq!(elm_ref('x').opt().parse(&input), ParseResult::Success { value: None, length: 0 });
    assert_eq!(elm_ref('a').opt().parse(&input), ParseResult::Success { value: Some(&'a'), length: 1 });
}

#[test]
fn exists_reports_without_consuming() {
    assert_eq!(elm_ref('a').exists_match().parse(&chars("ab")), ParseResult::Success { value: true, length: 0 });
    assert_eq!(elm_ref('a').exists_match().parse(&chars("ba")), ParseResult::Success { value: false, length: 0 });
}

#[test]
fn not_succeeds_exactly_where_the_parser_fails() {
    assert_eq!(elm_ref('a').not().parse(&chars("b")), ParseResult::Success { value: (), length: 0 });
    assert!(elm_ref('a').not().parse(&chars("a")).is_failure());
}

#[test]
fn attempt_makes_a_committed_failure_uncommitted() {
    let p = failed_with_commit::<char, char>(ParseError::of_in_complete()).attempt();
    assert_eq!(
        p.parse(&chars("a")),
        ParseResult::Failure { error: ParseError::Incomplete, committed_status: CommittedStatus::Uncommitted }
    );
}

#[test]
fn peek_consumes_nothing() {
    assert_eq!(elm_ref('a').peek().parse(&chars("ab")), ParseResult::Success { value: &'a', length: 0 });
}

#[test]
fn or_keeps_the_first_success() {
    let input = chars("a");
    assert_eq!(elm_ref('a').or(elm_ref('a')).parse(&input), ParseResult::Success { value: &'a', length: 1 });
    let p = failed_with_uncommit::<char, &char>(ParseError::of_in_complete()).or(elm_ref('a'));
    assert_eq!(p.parse(&input), ParseResult::Success { value: &'a', length: 1 });
}

#[test]
fn either_succeeds_where_or_does() {
    let input = chars("a");
    let e = elm_ref('x').either(elm_ref('a')).parse(&input);
    let o = elm_ref('x').or(elm_ref('a')).parse(&input);
    assert_eq!(e, o);
}

#[test]
fn skip_left_and_skip_right_project_and_then() {
    let input = chars("ab");
    let both = elm_ref('a').and_then(elm_ref('b')).parse(&input);
    assert_eq!(both, ParseResult::Success { value: (&'a', &'b'), length: 2 });
    assert_eq!(elm_ref('a').skip_left(elm_ref('b')).parse(&input), ParseResult::Success { value: &'b', length: 2 });
    assert_eq!(elm_ref('a').skip_right(elm_ref('b')).parse(&input), ParseResult::Success { value: &'a', length: 2 });
}

#[test]
fn take_while1_reads_what_take_while0_reads() {
    let input = chars("aab");
    let r1 = static_parsers::take_while1(|c: &char| *c == 'a').parse(&input);
    let r0 = static_parsers::take_while0(|c: &char| *c == 'a').parse(&input);
    assert_eq!(r1, r0);
    assert_eq!(r1.success().unwrap(), &['a', 'a'][..]);
}

#[test]
fn one_of_and_none_of_split_the_elements() {
    for text in ["a", "b", "z"] {
        let input = chars(text);
        let inside = elm_of("ab").parse(&input).is_success();
        let outside = none_of("ab").parse(&input).is_success();
        assert_ne!(inside, outside);
    }
}

#[test]
fn repeat_stays_within_its_bounds() {
    assert!(elm_ref('a').of_many_n_m(2, 3).parse(&chars("a")).is_failure());
    assert_eq!(elm_ref('a').of_many_n_m(2, 3).parse(&chars("aaaa")).success().unwrap().len(), 3);
}

#[test]
fn tag_no_case_matches_where_tag_matches() {
    let input = chars("abc");
    assert_eq!(tag("abc").parse(&input), ParseResult::Success { value: String::from("abc"), length: 3 });
    assert_eq!(tag_no_case("abc").parse(&input), ParseResult::Success { value: String::from("abc"), length: 3 });
    assert_eq!(tag_no_case("ABC").parse(&input), ParseResult::Success { value: String::from("abc"), length: 3 });
}

#[test]
fn result_adjustments_are_idempotent() {
    let f: ParseResult<u8> = ParseResult::failed_with_commit(ParseError::of_in_complete());
    assert_eq!(f.clone().with_uncommitted().with_uncommitted(), f.clone().with_uncommitted());
    let s: ParseResult<u8> = ParseResult::successful(7, 2);
    assert_eq!(s.clone().with_add_length(0), s);
}

#[test]
fn element_classes_nest() {
    for c in "0123456789abcdefgxyzABFGZ \t\r\n_!".chars() {
        let input = vec![c];
        if elm_digit_1_9().parse(&input).is_success() {
            assert!(elm_digit().parse(&input).is_success());
        }
        if elm_oct_digit().parse(&input).is_success() {
            assert!(elm_digit().parse(&input).is_success());
        }
        if elm_digit().parse(&input).is_success() {
            assert!(elm_hex_digit().parse(&input).is_success());
            assert!(elm_alpha_digit().parse(&input).is_success());
        }
        if elm_alpha().parse(&input).is_success() {
            assert!(elm_alpha_digit().parse(&input).is_success());
        }
        if elm_space().parse(&input).is_success() {
            assert!(elm_multi_space().parse(&input).is_success());
        }
    }
}

#[test]
fn element_ranges_by_reference() {
    let input = chars("c");
    assert_eq!(elm_in_ref('a', 'c').parse(&input), ParseResult::Success { value: &'c', length: 1 });
    assert!(elm_from_until_ref('a', 'c').parse(&input).is_failure());
    assert_eq!(elm_digit_1_9_ref().parse(&chars("7")), ParseResult::Success { value: &'7', length: 1 });
    assert!(elm_digit_1_9_ref().parse(&chars("0")).is_failure());
}

#[test]
fn right_chains_fold_like_left_chains() {
    let input = chars("1-1-1");
    let one = elm_ref('1').map(|_: &char| 1i64);
    let minus = elm_ref('-').map(|_: &char| |a: i64, b: i64| a - b);
    assert_eq!(one.chain_right1(minus).parse(&input), ParseResult::Success { value: -1, length: 5 });
    let one = elm_ref('1').map(|_: &char| 1i64);
    let minus = elm_ref('-').map(|_: &char| |a: i64, b: i64| a - b);
    assert_eq!(one.scan_right1(minus).parse(&input), ParseResult::Success { value: -1, length: 5 });
    let one = elm_ref('1').map(|_: &char| 1i64);
    let minus = elm_ref('-').map(|_: &char| |a: i64, b: i64| a - b);
    assert_eq!(one.chain_right0(minus, 9).parse(&chars("x")), ParseResult::Success { value: 9, length: 0 });
}

#[test]
fn separated_repetitions() {
    let input = chars("a,a,a");
    assert_eq!(elm_ref('a').of_many1_sep(elm_ref(',')).parse(&input).success().unwrap().len(), 3);
    assert_eq!(elm_ref('a').of_many_n_m_sep(1, 2, elm_ref(',')).parse(&input).success().unwrap().len(), 2);
    let r = elm_ref('a').of_rep_sep(2..=3, Some(elm_ref(','))).parse(&input);
    assert_eq!(r.success().unwrap().len(), 3);
}

#[test]
fn attempt_turns_cut_into_backtrack() {
    let mut input = StrInput::new("b");
    let r = Char('a').cut().attempt().parse_next(&mut input);
    assert!(matches!(r, Err(Fail::Backtrack(_))));
    assert_eq!(input.offset(), 0);
}

#[test]
fn cut_turns_backtrack_into_cut() {
    let mut input = StrInput::new("b");
    let r = Char('a').cut().parse_next(&mut input);
    assert!(matches!(r, Err(Fail::Cut(_))));
}

#[test]
fn optional_turns_backtrack_into_none() {
    let mut input = StrInput::new("b");
    assert_eq!(Char('a').optional().parse_next(&mut input), Ok(None));
    assert_eq!(input.offset(), 0);
}

#[test]
fn or_tries_the_right_parser_only_after_backtrack() {
    let mut input = StrInput::new("b");
    assert_eq!(Char('a').or(Char('b')).parse_next(&mut input), Ok('b'));
    let mut input = StrInput::new("b");
    assert!(matches!(Char('a').cut().or(Char('b')).parse_next(&mut input), Err(Fail::Cut(_))));
}

#[test]
fn many0_succeeds_on_no_match() {
    let mut input = StrInput::new("b");
    assert_eq!(Char('a').many0().parse_next(&mut input), Ok(vec![]));
    assert_eq!(input.offset(), 0);
}

#[test]
fn map_twice_composes() {
    let mut input = StrInput::new("a");
    let r = Char('a').map(|c: char| c.to_ascii_uppercase()).map(|c: char| c as u32).parse_next(&mut input);
    assert_eq!(r, Ok(65));
}

#[test]
fn take_while1_and_take_while0_read_the_same_run() {
    let mut a = StrInput::new("aab");
    let mut b = StrInput::new("aab");
    assert_eq!(take_while1(|c: char| c == 'a').parse_next(&mut a), Ok("aa"));
    assert_eq!(take_while0(|c: char| c == 'a').parse_next(&mut b), Ok("aa"));
    assert_eq!(a.offset(), b.offset());
}

#[test]
fn zip_left_and_zip_right_project_zip() {
    let mut a = StrInput::new("ab");
    let mut b = StrInput::new("ab");
    let mut c = StrInput::new("ab");
    assert_eq!(Char('a').zip(Char('b')).parse_next(&mut a), Ok(('a', 'b')));
    assert_eq!(Char('a').zip_left(Char('b')).parse_next(&mut b), Ok('a'));
    assert_eq!(Char('a').zip_right(Char('b')).parse_next(&mut c), Ok('b'));
    assert_eq!(a.offset(), b.offset());
    assert_eq!(b.offset(), c.offset());
}

#[test]
fn element_sets_from_arrays() {
    let bytes = b"ab".to_vec();
    assert_eq!(elm_of(b"ba").parse(&bytes), ParseResult::Success { value: b'a', length: 1 });
    assert!(none_of(b"ba").parse(&bytes).is_failure());
    let text = chars("ca");
    assert!(elm_of(&['a', 'b']).parse(&text).is_failure());
    assert_eq!(none_of(&['a', 'b']).parse(&text), ParseResult::Success { value: 'c', length: 1 });
    assert_eq!(ElementSet::<u8>::to_str(b"xy"), "xy");
    assert_eq!(ElementSet::<u8>::to_str(&[0xffu8, 0x00]), "<byte array>");
    assert_eq!(ElementSet::<char>::to_str(&['x']), "<char array>");
    assert_eq!(ElementSet::<char>::to_str("xyz"), "xyz");
    assert_eq!(ElementSet::<char>::to_str(&(..)), "..");
    assert!(ElementSet::<char>::contains(&('a'..='c'), &'c'));
    assert!(!ElementSet::<char>::contains(&('a'..'c'), &'c'));
}

#[test]
fn between_keeps_the_middle_value_or_the_first_error() {
    let mut input = StrInput::new("(a)x");
    let mut p = oni_comb_parser::prelude::between(Char('('), Char('a'), Char(')'));
    assert_eq!(p.parse_next(&mut input), Ok('a'));
    assert_eq!(input.offset(), 3);
    let mut input = StrInput::new("(b)");
    assert!(matches!(p.parse_next(&mut input), Err(Fail::Backtrack(_))));
}

#[test]
fn repetition_reads_then_checks_the_minimum() {
    let input = chars("aab");
    assert_eq!(
        elm_ref('a').of_many_n_m(1, 2).parse(&input),
        ParseResult::Success { value: vec![&'a', &'a'], length: 2 }
    );
    match elm_ref('a').of_many_n_m(3, 4).parse(&input) {
        ParseResult::Failure { committed_status, .. } => assert_eq!(committed_status, CommittedStatus::Uncommitted),
        _ => panic!(),
    }
}

#[test]
fn regex_reads_the_match_at_the_offset_only() {
    assert_eq!(static_parsers::regex("[abc]+").parse(&chars("abcdef")), ParseResult::Success { value: String::from("abc"), length: 3 });
    assert_eq!(static_parsers::regex("é+").parse(&chars("éé!")), ParseResult::Success { value: String::from("éé"), length: 2 });
    assert!(static_parsers::regex("[abc]+").parse(&chars("xabc")).is_failure());
}
