use oni_comb_parser::prelude::static_parsers::{elm_digit, elm_of, elm_ref, none_of, failed_with_commit, successful, successful_lazy, take, take_while1};
use oni_comb_parser::static_parser::error::{CommittedStatus, ParseError};
use oni_comb_parser::static_parser::ext::StaticParserExt;
use oni_comb_parser::static_parser::parsers::StaticParsersImpl;
use oni_comb_parser::static_parser::result::ParseResult;
use oni_comb_parser::static_parser::runner::ParserRunner;
use oni_comb_parser::utils::range::CountRange;

fn chars(s: &str) -> Vec<char> {
    s.chars().collect()
}

#[test]
fn test_direct_static_parser_runner() {
    let input = chars("abc");
    let parser = elm_ref('a');
    let result = parser.parse(&input);
    assert!(result.is_success());
    assert_eq!(result.success().unwrap(), &'a');
}

#[test]
fn test_direct_static_parser_pure() {
    let input = chars("abc");
    let parser = successful_lazy(|| 'x');
    let result = parser.parse(&input);
    assert!(result.is_success());
    assert_eq!(result.success().unwrap(), 'x');
}

#[test]
fn test_direct_static_parser_functor() {
    let input = chars("abc");
    let parser = elm_ref('a').map(|c: &char| c.to_ascii_uppercase());
    let result = parser.parse(&input);
    assert!(result.is_success());
    assert_eq!(result.success().unwrap(), 'A');
}

#[test]
fn test_direct_static_parser_filter() {
    let input = chars("abc");
    let parser = elm_ref('a').filter(|c: &&char| **c == 'a');
    let result = parser.parse(&input);
    assert!(result.is_success());
    assert_eq!(result.success().unwrap(), &'a');
    let parser = elm_ref('a').filter(|c: &&char| **c == 'b');
    let result = parser.parse(&input);
    assert!(result.is_failure());
}

#[test]
fn test_direct_static_parser_monad() {
    let input = chars("abc");
    let parser = elm_ref('a').flat_map(|_: &char| elm_ref('b'));
    let result = parser.parse(&input);
    assert!(result.is_success());
    assert_eq!(result.success().unwrap(), &'b');
}

#[test]
fn test_direct_static_parser_add() {
    let input = chars("abc");
    let parser = elm_ref('a').and_then(elm_ref('b'));
    let result = parser.parse(&input);
    assert!(result.is_success());
    assert_eq!(result.success().unwrap(), (&'a', &'b'));
}

#[test]
fn test_direct_static_parser_bitor() {
    let input = chars("abc");
    let parser = elm_ref('x').either(elm_ref('a'));
    let result = parser.parse(&input);
    assert!(result.is_success());
    assert_eq!(result.success().unwrap(), &'a');
}

#[test]
fn test_direct_static_parser_mul() {
    let input = chars("abc");
    let parser = elm_ref('a').skip_left(elm_ref('b'));
    let result = parser.parse(&input);
    assert!(result.is_success());
    assert_eq!(result.success().unwrap(), &'b');
}

#[test]
fn test_direct_static_parser_not() {
    let input = chars("abc");
    let parser = elm_ref('x').negate();
    let result = parser.parse(&input);
    assert!(result.is_success());
    assert_eq!(result.success().unwrap(), ());
}

#[test]
fn test_direct_static_parser_sub() {
    let input = chars("abc");
    let parser = elm_ref('a').skip_right(elm_ref('b'));
    let result = parser.parse(&input);
    assert!(result.is_success());
    assert_eq!(result.success().unwrap(), &'a');
}

#[test]
fn test_direct_static_parser_collect() {
    let input = chars("abc");
    let parser = elm_ref('a').collect();
    let result = parser.parse(&input);
    assert!(result.is_success());
    assert_eq!(result.success().unwrap(), vec!['a']);
}

#[test]
fn test_direct_static_parser_conversion() {
    {
        let digits = ['1', '2', '3'];
        let parser = elm_digit()
            .of_many1()
            .map(|ds: Vec<char>| ds.into_iter().collect::<String>())
            .map_res(|s: String| s.parse::<i32>());
        let result = parser.parse(&digits);
        assert!(result.is_success());
        assert_eq!(result.success().unwrap(), 123);
    }
    {
        let letters = ['a', 'b', 'c'];
        let parser = elm_digit()
            .of_many1()
            .map(|ds: Vec<char>| ds.into_iter().collect::<String>())
            .map_res(|s: String| s.parse::<i32>());
        let result = parser.parse(&letters);
        assert!(result.is_failure());
    }
}

#[test]
fn test_direct_static_parser_discard() {
    let input = chars("abc");
    let parser = elm_ref('a').discard();
    let result = parser.parse(&input);
    assert!(result.is_success());
    assert_eq!(result.success().unwrap(), ());
}

#[test]
fn test_direct_static_parser_logging() {
    let input = chars("abc");
    let parser = elm_ref('a').name("a_parser");
    let result = parser.parse(&input);
    assert!(result.is_success());
    assert_eq!(result.success().unwrap(), &'a');
}

#[test]
fn test_direct_static_parser_offset() {
    let input = chars("abc");
    let parser = elm_ref('a').last_offset();
    let result = parser.parse(&input);
    assert!(result.is_success());
    assert_eq!(result.success().unwrap(), 0);
    let parser = elm_ref('a').next_offset();
    let result = parser.parse(&input);
    assert!(result.is_success());
    assert_eq!(result.success().unwrap(), 1);
}

#[test]
fn test_direct_static_parser_operator() {
    let input = chars("abc");
    let parser = elm_ref('a').and_then(elm_ref('b'));
    assert_eq!(parser.parse(&input).success().unwrap(), (&'a', &'b'));
    let parser = elm_ref('x').or(elm_ref('a'));
    let result = parser.parse(&input);
    assert!(result.is_success());
    assert_eq!(result.success().unwrap(), &'a');
    let parser = elm_ref('a').exists_match();
    let result = parser.parse(&input);
    assert!(result.is_success());
    assert_eq!(result.success().unwrap(), true);
    let parser = elm_ref('x').not();
    let result = parser.parse(&input);
    assert!(result.is_success());
    assert_eq!(result.success().unwrap(), ());
    let parser = elm_ref('a').opt();
    let result = parser.parse(&input);
    assert!(result.is_success());
    assert_eq!(result.success().unwrap(), Some(&'a'));
    let parser = elm_ref('a').attempt();
    let result = parser.parse(&input);
    assert!(result.is_success());
    assert_eq!(result.success().unwrap(), &'a');
}

#[test]
fn test_direct_static_parser_peek() {
    let input = chars("abc");
    let parser = elm_ref('a').peek();
    let result = parser.parse(&input);
    assert!(result.is_success());
    assert_eq!(result.success().unwrap(), &'a');
    let parser = elm_ref('a').peek().and_then(elm_ref('a'));
    let result = parser.parse(&input);
    assert!(result.is_success());
    assert_eq!(result.success().unwrap(), (&'a', &'a'));
}

#[test]
fn test_direct_static_parser_repeat() {
    let input = chars("aaa");
    let parser = elm_ref('a').of_many0();
    let result = parser.parse(&input);
    assert!(result.is_success());
    assert_eq!(result.success().unwrap().len(), 3);
    let parser = elm_ref('a').of_many1();
    let result = parser.parse(&input);
    assert!(result.is_success());
    assert_eq!(result.success().unwrap().len(), 3);
    let parser = elm_ref('a').of_many_n_m(1, 2);
    let result = parser.parse(&input);
    assert!(result.is_success());
    assert_eq!(result.success().unwrap().len(), 2);
    let parser = elm_ref('a').of_count(2);
    let result = parser.parse(&input);
    assert!(result.is_success());
    assert_eq!(result.success().unwrap().len(), 2);
    let input = chars("bbb");
    let parser = elm_ref('a').of_many0();
    let result = parser.parse(&input);
    assert!(result.is_success());
    assert_eq!(result.success().unwrap().len(), 0);
    let parser = elm_ref('a').of_many1();
    let result = parser.parse(&input);
    assert!(result.is_failure());
}

#[test]
fn test_direct_static_parser_skip() {
    let input = chars("abc");
    let parser = elm_ref('a').skip_left(elm_ref('b'));
    let result = parser.parse(&input);
    assert!(result.is_success());
    assert_eq!(result.success().unwrap(), &'b');
    let parser = elm_ref('a').skip_right(elm_ref('b'));
    let result = parser.parse(&input);
    assert!(result.is_success());
    assert_eq!(result.success().unwrap(), &'a');
    let parser = elm_ref('b').surround(elm_ref('a'), elm_ref('c'));
    let result = parser.parse(&input);
    assert!(result.is_success());
    assert_eq!(result.success().unwrap(), &'b');
}

#[test]
fn repeat_too_few_items_reports_counts() {
    let input = chars("aab");
    match elm_ref('a').of_many_n_m(3, 4).parse(&input) {
        ParseResult::Failure { error: ParseError::Mismatch { offset, length, message }, committed_status } => {
            assert_eq!(offset, 1);
            assert_eq!(length, 2);
            assert_eq!(message, "expect repeat at least 3 times, found 2 times");
            assert_eq!(committed_status, CommittedStatus::Uncommitted);
        },
        _ => panic!(),
    }
}

#[test]
fn repeat_with_separator_keeps_a_trailing_separator_length() {
    let input = chars("a,a,");
    let r = elm_ref('a').of_many0_sep(elm_ref(',')).parse(&input);
    assert_eq!(r.clone().success().unwrap().len(), 2);
    match r {
        ParseResult::Success { length, .. } => assert_eq!(length, 4),
        _ => panic!(),
    }
}

#[test]
fn repeat_stops_after_a_round_that_consumes_nothing() {
    let input = chars("abc");
    let p = StaticParserExt::<char>::of_many0(successful(1u8));
    let r = ParserRunner::<char>::parse(&p, &input);
    assert_eq!(r, ParseResult::Success { value: vec![1u8, 1u8], length: 0 });
    let p = StaticParserExt::<char>::of_count(successful(1u8), 3);
    let r = ParserRunner::<char>::parse(&p, &input);
    assert_eq!(r, ParseResult::Success { value: vec![1u8, 1u8, 1u8], length: 0 });
}

#[test]
fn repeat_with_exclusive_and_exact_ranges() {
    let input = chars("aaaa");
    assert_eq!(elm_ref('a').repeat(CountRange::between(1, 3)).parse(&input).success().unwrap().len(), 2);
    assert_eq!(elm_ref('a').repeat(2usize).parse(&input).success().unwrap().len(), 2);
    assert_eq!(elm_ref('a').repeat(CountRange::full()).parse(&input).success().unwrap().len(), 4);
}

#[test]
fn or_does_not_recover_from_a_committed_failure() {
    let input = chars("a");
    let p = failed_with_commit::<char, &char>(ParseError::of_in_complete()).or(elm_ref('a'));
    assert_eq!(
        p.parse(&input),
        ParseResult::Failure { error: ParseError::Incomplete, committed_status: CommittedStatus::Committed }
    );
}

#[test]
fn either_reports_both_errors() {
    let input = chars("z");
    match elm_ref('x').either(elm_ref('y')).parse(&input) {
        ParseResult::Failure { error: ParseError::Custom { offset, message, .. }, committed_status } => {
            assert_eq!(offset, 0);
            assert_eq!(message, "expected: 'x', but got: 'z' or expected: 'y', but got: 'z'");
            assert_eq!(committed_status, CommittedStatus::Uncommitted);
        },
        _ => panic!(),
    }
}

#[test]
fn negate_after_a_committed_failure_stays_committed() {
    let input = chars("a");
    let p = StaticParserExt::<char>::negate(failed_with_commit::<char, char>(ParseError::of_in_complete()));
    match ParserRunner::<char>::parse(&p, &input) {
        ParseResult::Failure { error: ParseError::Custom { message, .. }, committed_status } => {
            assert_eq!(message, "not: parser failed with committed status");
            assert_eq!(committed_status, CommittedStatus::Committed);
        },
        _ => panic!(),
    }
    match elm_ref('a').negate().parse(&input) {
        ParseResult::Failure { error: ParseError::Custom { message, .. }, committed_status } => {
            assert_eq!(message, "not: parser succeeded");
            assert_eq!(committed_status, CommittedStatus::Uncommitted);
        },
        _ => panic!(),
    }
}

#[test]
fn not_after_a_success_fails_with_a_mismatch() {
    let input = chars("ab");
    match elm_ref('b').not().run(&input, 1) {
        ParseResult::Failure { error: ParseError::Mismatch { offset, message, .. }, .. } => {
            assert_eq!(offset, 0);
            assert_eq!(message, "not predicate failed");
        },
        _ => panic!(),
    }
}

#[test]
fn named_wraps_a_non_custom_error() {
    let input = chars("b");
    match elm_ref('a').name("letter a").parse(&input) {
        ParseResult::Failure { error: ParseError::Custom { message, parent, .. }, .. } => {
            assert_eq!(message, "failed to parse letter a");
            assert!(matches!(parent.as_deref(), Some(ParseError::Mismatch { .. })));
        },
        _ => panic!(),
    }
}

#[test]
fn filter_failure_is_after_the_consumed_elements() {
    let input = chars("abc");
    match elm_ref('a').with_filter(|_: &&char| false).parse(&input) {
        ParseResult::Failure { error: ParseError::Custom { offset, message, .. }, .. } => {
            assert_eq!(offset, 1);
            assert_eq!(message, "filter: predicate returned false");
        },
        _ => panic!(),
    }
}

#[test]
fn map_res_error_is_a_conversion_failure() {
    let input = chars("x");
    match elm_ref('x').map_res(|c: &char| c.to_digit(10).ok_or("not a digit")).parse(&input) {
        ParseResult::Failure { error: ParseError::Conversion { message, .. }, committed_status } => {
            assert_eq!(message, "Conversion error: \"not a digit\"");
            assert_eq!(committed_status, CommittedStatus::Uncommitted);
        },
        _ => panic!(),
    }
}

#[test]
fn chain_left1_folds_from_the_left() {
    let input = chars("8-3-2");
    let num = elm_digit().map(|c: char| c.to_digit(10).unwrap() as i32);
    let minus = elm_ref('-').map(|_: &char| |a: i32, b: i32| a - b);
    let p = num.chain_left1(minus);
    assert_eq!(p.parse(&input), ParseResult::Success { value: 3, length: 5 });
}

#[test]
fn rest_left1_without_operator_gives_the_start_value() {
    let input = chars("x");
    let num = elm_digit().map(|c: char| c.to_digit(10).unwrap() as i32);
    let plus = elm_ref('+').map(|_: &char| |a: i32, b: i32| a + b);
    assert_eq!(num.rest_left1(plus, 7).parse(&input), ParseResult::Success { value: 7, length: 0 });
}

#[test]
fn rest_left1_failure_after_an_operator_is_committed() {
    let input = chars("+x");
    let num = elm_digit().map(|c: char| c.to_digit(10).unwrap() as i32);
    let plus = elm_ref('+').map(|_: &char| |a: i32, b: i32| a + b);
    match num.rest_left1(plus, 7).parse(&input) {
        ParseResult::Failure { committed_status, .. } => assert_eq!(committed_status, CommittedStatus::Committed),
        _ => panic!(),
    }
}

#[test]
fn rest_right1_applies_one_operator() {
    let input = chars("*3*4");
    let num = elm_digit().map(|c: char| c.to_digit(10).unwrap() as i32);
    let times = elm_ref('*').map(|_: &char| |a: i32, b: i32| a * b);
    assert_eq!(num.rest_right1(times, 2).parse(&input), ParseResult::Success { value: 6, length: 2 });
}

#[test]
fn chain_left0_falls_back_to_the_value() {
    let input = chars("x");
    let num = elm_digit().map(|c: char| c.to_digit(10).unwrap() as i32);
    let plus = elm_ref('+').map(|_: &char| |a: i32, b: i32| a + b);
    assert_eq!(num.chain_left0(plus, 9).parse(&input), ParseResult::Success { value: 9, length: 0 });
}

#[test]
fn static_parsers_impl_elm_digit_reads_the_whole_run() {
    let input = chars("123x");
    assert_eq!(StaticParsersImpl::elm_digit().parse(&input), ParseResult::Success { value: vec!['1', '2', '3'], length: 3 });
    assert_eq!(StaticParsersImpl::elm_any_ref().parse(&input).success().unwrap(), &input[..1]);
    let set = ['1', '2'];
    assert_eq!(StaticParsersImpl::elm_ref_of(&set[..]).parse(&input).success().unwrap(), &input[..2]);
    assert_eq!(StaticParsersImpl::elm_in('0', '2').parse(&input).success().unwrap(), vec!['1', '2']);
    assert!(StaticParsersImpl::elm_from_until('2', '9').parse(&input).is_failure());
    assert!(StaticParsersImpl::elm_alpha().parse(&input).is_failure());
}

#[test]
fn lazy_static_parsers_read_abc() {
    let input = chars("abcd");
    assert_eq!(StaticParsersImpl::lazy_static_parser().parse(&input).success().unwrap(), "abc");
    assert!(StaticParsersImpl::lazy_static_parser().parse(&input[..2]).is_failure());
    assert_eq!(oni_comb_parser::prelude::static_parsers::lazy_static_parser().parse(&input).success().unwrap(), "abc");
    assert_eq!(StaticParsersImpl::lazy_static_str("s"), "s");
}

#[test]
fn result_adjustments() {
    let s: ParseResult<u8> = ParseResult::successful(1, 2);
    assert_eq!(s.clone().with_add_length(3), ParseResult::Success { value: 1, length: 5 });
    let f: ParseResult<u8> = ParseResult::failed_with_commit(ParseError::of_in_complete());
    assert_eq!(f.clone().with_uncommitted().committed_status(), Some(CommittedStatus::Uncommitted));
    let u: ParseResult<u8> = ParseResult::failed_with_uncommitted(ParseError::of_in_complete());
    assert_eq!(u.with_committed_fallback(true).committed_status(), Some(CommittedStatus::Committed));
    assert_eq!(s.to_result(), Ok(1));
    assert!(take(1).parse(&[] as &[u8]).is_failure());
    let _ = take_while1(|c: &u8| *c == 0);
}

#[test]
fn repeat_accepts_std_ranges() {
    let input = chars("aaaa");
    assert_eq!(elm_ref('a').repeat(1..3).parse(&input).success().unwrap().len(), 2);
    assert_eq!(elm_ref('a').repeat(2..=3).parse(&input).success().unwrap().len(), 3);
    assert_eq!(elm_ref('a').repeat(..).parse(&input).success().unwrap().len(), 4);
    assert!(elm_ref('a').repeat(5..=6).parse(&input).is_failure());
}

#[test]
fn element_sets_from_std_ranges() {
    let input = chars("bz");
    assert_eq!(elm_of(&('a'..='c')).parse(&input).success().unwrap(), 'b');
    assert_eq!(elm_of(&('a'..'b')).parse(&input).is_failure(), true);
    assert_eq!(elm_of(&(..)).parse(&input).success().unwrap(), 'b');
    assert!(none_of(&('a'..='c')).parse(&input).is_failure());
}

#[test]
fn parsers_impl_parse_and_filter() {
    let input = chars("123x");
    let digits = StaticParsersImpl::many1(elm_ref('1').or(elm_ref('2')).or(elm_ref('3')));
    assert_eq!(StaticParsersImpl::parse(&digits, &input).unwrap().len(), 3);
    let none = StaticParsersImpl::many1(elm_ref('x'));
    match StaticParsersImpl::parse(&none, &input) {
        Err(ParseError::Custom { offset, parent, message }) => {
            assert_eq!(offset, 0);
            assert!(parent.is_none());
            assert_eq!(message, "Parse failed");
        },
        _ => panic!(),
    }
    let even = StaticParsersImpl::filter(elm_ref('1'), |c: &&char| **c == '2');
    match even.parse(&input) {
        ParseResult::Failure { error: ParseError::Custom { offset, message, .. }, committed_status } => {
            assert_eq!(offset, 0);
            assert_eq!(message, "Filter predicate failed");
            assert_eq!(committed_status, CommittedStatus::Uncommitted);
        },
        _ => panic!(),
    }
    let one = StaticParsersImpl::filter(elm_ref('1'), |c: &&char| **c == '1');
    assert_eq!(one.parse(&input), ParseResult::Success { value: &'1', length: 1 });
}

#[test]
fn parsers_impl_repetitions() {
    let input = chars("a,a,a");
    let sep = StaticParsersImpl::many1_sep(elm_ref('a'), elm_ref(','));
    assert_eq!(sep.parse(&input).success().unwrap().len(), 3);
    let sep0 = StaticParsersImpl::many0_sep(elm_ref('b'), elm_ref(','));
    assert_eq!(sep0.parse(&input), ParseResult::Success { value: vec![], length: 0 });
    let two = StaticParsersImpl::count(StaticParsersImpl::map(elm_ref('a'), |c: &char| *c), 1);
    assert_eq!(two.parse(&input), ParseResult::Success { value: vec!['a'], length: 1 });
    let ranged = StaticParsersImpl::repeat_sep(elm_ref('a'), 2..=2, Some(elm_ref(',')));
    assert_eq!(ranged.parse(&input).success().unwrap().len(), 2);
    let many = StaticParsersImpl::many0(elm_ref('a'));
    assert_eq!(many.parse(&input).success().unwrap().len(), 1);
    let rep = StaticParsersImpl::repeat(elm_ref('z'), CountRange::from(1));
    assert!(rep.parse(&input).is_failure());
    let fm = StaticParsersImpl::flat_map(elm_ref('a'), |_c: &char| elm_ref(','));
    assert_eq!(fm.parse(&input), ParseResult::Success { value: &',', length: 2 });
}

#[test]
fn test_static_parser_runner() {
    let text = "abc";
    let input = text.chars().collect::<Vec<_>>();

    let parser = elm_ref('a');
    let result = parser.parse(&input);

    assert!(result.is_success());
    assert_eq!(result.success().unwrap(), &'a');
}

#[test]
fn test_static_parser_pure() {
    let text = "abc";
    let input = text.chars().collect::<Vec<_>>();

    let parser = successful_lazy(|| 'x');
    let result = parser.parse(&input);

    assert!(result.is_success());
    assert_eq!(result.success().unwrap(), 'x');
}

#[test]
fn test_static_parser_functor() {
    let text = "abc";
    let input = text.chars().collect::<Vec<_>>();

    let parser = elm_ref('a').map(|c: &char| c.to_ascii_uppercase());
    let result = parser.parse(&input);

    assert!(result.is_success());
    assert_eq!(result.success().unwrap(), 'A');
}

#[test]
fn test_static_parser_filter() {
    let text = "abc";
    let input = text.chars().collect::<Vec<_>>();

    let parser = elm_ref('a').filter(|c: &&char| **c == 'a');
    let result = parser.parse(&input);

    assert!(result.is_success());
    assert_eq!(result.success().unwrap(), &'a');

    let parser = elm_ref('a').filter(|c: &&char| **c == 'b');
    let result = parser.parse(&input);

    assert!(result.is_failure());
}

#[test]
fn test_static_parser_monad() {
    let text = "abc";
    let input = text.chars().collect::<Vec<_>>();

    let parser = elm_ref('a').flat_map(|_: &char| elm_ref('b'));
    let result = parser.parse(&input);

    assert!(result.is_success());
    assert_eq!(result.success().unwrap(), &'b');
}

#[test]
fn test_static_parser_add() {
    let text = "abc";
    let input = text.chars().collect::<Vec<_>>();

    let parser = elm_ref('a').and_then(elm_ref('b'));
    let result = parser.parse(&input);

    assert!(result.is_success());
    assert_eq!(result.success().unwrap(), (&'a', &'b'));
}

#[test]
fn test_static_parser_bitor() {
    let text = "abc";
    let input = text.chars().collect::<Vec<_>>();

    let parser = elm_ref('x').either(elm_ref('a'));
    let result = parser.parse(&input);

    assert!(result.is_success());
    assert_eq!(result.success().unwrap(), &'a');
}

#[test]
fn test_static_parser_mul() {
    let text = "abc";
    let input = text.chars().collect::<Vec<_>>();

    let parser = elm_ref('a').skip_left(elm_ref('b'));
    let result = parser.parse(&input);

    assert!(result.is_success());
    assert_eq!(result.success().unwrap(), &'b');
}

#[test]
fn test_static_parser_not() {
    let text = "abc";
    let input = text.chars().collect::<Vec<_>>();

    let parser = elm_ref('x').negate();
    let result = parser.parse(&input);

    assert!(result.is_success());
    assert_eq!(result.success().unwrap(), ());
}

#[test]
fn test_static_parser_sub() {
    let text = "abc";
    let input = text.chars().collect::<Vec<_>>();

    let parser = elm_ref('a').skip_right(elm_ref('b'));
    let result = parser.parse(&input);

    assert!(result.is_success());
    assert_eq!(result.success().unwrap(), &'a');
}

#[test]
fn octal_digits_run_from_zero_to_eight() {
    let input = chars("012345678");
    let digits = oni_comb_parser::prelude::static_parsers::elm_oct_digit().of_many1();
    assert_eq!(digits.parse(&input).success().unwrap().len(), 9);
    assert!(oni_comb_parser::prelude::static_parsers::elm_oct_digit_ref().parse(&chars("9")).is_failure());
    assert_eq!(StaticParsersImpl::elm_oct_digit().parse(&chars("8")), ParseResult::Success { value: '8', length: 1 });
}

#[test]
fn parsers_impl_take_till1_includes_the_match() {
    let input = chars("abcdef");
    let p = StaticParsersImpl::take_till1(|e: &char| *e == 'c');
    assert_eq!(p.parse(&input), ParseResult::Success { value: &input[0..3], length: 3 });
}

#[test]
fn parsers_impl_elm_pred_reads_one_element() {
    let input = chars("xx");
    let p = StaticParsersImpl::elm_pred_ref(|c: &char| *c == 'x');
    assert_eq!(p.parse(&input), ParseResult::Success { value: &input[0], length: 1 });
    let q = StaticParsersImpl::elm_pred(|c: &char| *c == 'x');
    assert_eq!(q.parse(&input), ParseResult::Success { value: 'x', length: 1 });
    let h = StaticParsersImpl::elm_hex_digit_ref();
    assert_eq!(h.parse(&chars("af")), ParseResult::Success { value: &'a', length: 1 });
}

#[test]
fn literal_parsers_read_bytes_as_latin1() {
    let bytes = b"abcdef".to_vec();
    assert_eq!(
        StaticParsersImpl::tag::<u8>("abc").parse(&bytes),
        ParseResult::Success { value: String::from("abc"), length: 3 }
    );
    assert!(StaticParsersImpl::tag::<u8>("abd").parse(&bytes).is_failure());
    assert_eq!(
        StaticParsersImpl::tag_no_case::<u8>("ABC").parse(&bytes),
        ParseResult::Success { value: String::from("abc"), length: 3 }
    );
    assert_eq!(
        StaticParsersImpl::regex::<u8>("[abc]+").parse(&bytes),
        ParseResult::Success { value: String::from("abc"), length: 3 }
    );
    let latin = vec![0xe9u8, b'x'];
    assert_eq!(
        StaticParsersImpl::regex::<u8>("é").parse(&latin),
        ParseResult::Success { value: String::from("é"), length: 1 }
    );
}

#[test]
fn take_while_n_m_reads_from_the_offset() {
    let p = oni_comb_parser::prelude::static_parsers::take_while_n_m(1, 3, |c: &u8| c.is_ascii_digit());
    assert_eq!(p.parse(b"1234b"), ParseResult::Success { value: &b"123"[..], length: 3 });
    assert_eq!(p.parse(b"12b"), ParseResult::Success { value: &b"12"[..], length: 2 });
    assert_eq!(
        p.parse(b"a1b"),
        ParseResult::Failure { error: ParseError::Incomplete, committed_status: CommittedStatus::Uncommitted }
    );
}

#[test]
fn surround_gives_the_middle_value() {
    let input = chars("(ABC)");
    let p = oni_comb_parser::prelude::static_parsers::surround(
        elm_ref('('),
        oni_comb_parser::prelude::static_parsers::tag_no_case("abc"),
        elm_ref(')'),
    );
    assert_eq!(p.parse(&input), ParseResult::Success { value: String::from("abc"), length: 5 });
    let s = StaticParsersImpl::surround(elm_ref('('), take(3), elm_ref(')'));
    assert_eq!(s.parse(&input), ParseResult::Success { value: &input[1..4], length: 5 });
}
