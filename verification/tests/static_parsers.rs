use oni_comb_parser::prelude::static_parsers::{
    begin, elm, elm_any_ref, elm_digit, elm_of, elm_ref, elm_space, empty, end, failed, failed_lazy, failed_with_commit,
    lazy, none_of, regex, skip, successful, successful_lazy, surround, tag, tag_no_case, take, take_till0,
    take_till1, take_while0, take_while1, take_while_n_m, try_regex, unit,
};
use oni_comb_parser::static_parser::error::{CommittedStatus, ParseError};
use oni_comb_parser::static_parser::ext::StaticParserExt;
use oni_comb_parser::static_parser::result::ParseResult;
use oni_comb_parser::static_parser::runner::ParserRunner;
use oni_comb_parser::utils::range::CountRange;
use std::iter::FromIterator;

fn chars(s: &str) -> Vec<char> {
    s.chars().collect()
}

#[test]
fn test_attempt() {
    {
        let input1 = b"b";
        let p = failed_with_commit(ParseError::of_in_complete()).attempt().or(elm_ref(b'b'));
        let r = p.parse_as_result(input1);
        assert!(r.is_ok());
    }
    {
        let input1 = chars("abra cadabra!");
        let p = tag("abra")
            .and_then(elm_space())
            .and_then(tag("abra"))
            .attempt()
            .either(tag("abra").and_then(elm_space()).and_then(tag("cadabra!")));
        let r = p.parse_as_result(&input1);
        assert!(r.is_ok());
    }
}

#[test]
fn test_successful_in_closure() {
    let input = b"a";
    let p = successful_lazy(|| 'a');
    let r = p.parse_as_result(input).unwrap();
    assert_eq!(r, 'a');
}

#[test]
fn test_elem() {
    let p = elm(b'a');
    let r = p.parse_as_result(b"a").unwrap();
    assert_eq!(r, b'a');
}

#[test]
fn test_regex() {
    let input1 = chars("abc");
    let input2 = chars("xbc");
    let p = regex(r"a.*c$").name("regex_1");
    let r = p.parse_as_result(&input1);
    assert!(r.is_ok());
    assert_eq!(r.unwrap(), "abc");
    let r = p.parse_as_result(&input2);
    assert!(r.is_err());
    {
        let input3 = chars("12345 to");
        let p = regex(r"\d+");
        let r = p.parse_as_result(&input3);
        assert!(r.is_ok());
    }
}

#[test]
fn test_elm_of() {
    let patterns: &[u8] = b"abcdef";
    let b = patterns.to_vec();
    let p = elm_of(patterns);
    for index in 0..b.len() {
        let r = p.parse_as_result(&b[index..]);
        assert!(r.is_ok());
        assert_eq!(r.unwrap(), b[index]);
    }
    let r = p.parse_as_result(b"g");
    assert!(r.is_err());
}

#[test]
fn test_none_of() {
    let patterns: &[u8] = b"abcdef";
    let b = patterns.to_vec();
    let p = none_of(patterns);
    for index in 0..b.len() {
        let r = p.parse_as_result(&b[index..]);
        assert!(r.is_err());
    }
    let r = p.parse_as_result(b"g");
    assert!(r.is_ok());
    assert_eq!(r.unwrap(), b'g');
}

#[test]
fn test_peek() {
    let input = chars("aname");
    let p = elm_ref('a').peek().and_then(tag("aname"));
    let result = p.parse_as_result(&input).unwrap();
    assert_eq!(*result.0, 'a');
    assert_eq!(result.1, "aname");
}

#[test]
fn test_repeat() {
    let p = elm_ref(b'a').repeat(CountRange::to_inclusive(3)).collect();
    let r = p.parse_as_result(b"");
    assert!(r.is_ok());
    let r = p.parse_as_result(b"a").unwrap();
    assert_eq!(r, vec![b'a']);
    let r = p.parse_as_result(b"aa").unwrap();
    assert_eq!(r, vec![b'a', b'a']);
    let r = p.parse_as_result(b"aaa").unwrap();
    assert_eq!(r, vec![b'a', b'a', b'a']);
}

#[test]
fn test_many_0() {
    let p = elm_ref(b'a').of_many0().collect();
    let r = p.parse_as_result(b"a").unwrap();
    assert_eq!(r, vec![b'a']);
    let r = p.parse_as_result(b"aa").unwrap();
    assert_eq!(r, vec![b'a', b'a']);
}

#[test]
fn test_many_1() {
    let p = elm_ref(b'a').of_many1().collect();
    let r = p.parse_as_result(b"");
    assert!(r.is_err());
    let r = p.parse_as_result(b"a").unwrap();
    assert_eq!(r, vec![b'a']);
    let r = p.parse_as_result(b"aa").unwrap();
    assert_eq!(r, vec![b'a', b'a']);
}

#[test]
fn test_many_n_m() {
    let p = elm_ref(b'a').of_many_n_m(1, 2).collect().and_then(end());
    let r = p.parse_as_result(b"");
    assert!(r.is_err());
    let (a, _) = p.parse_as_result(b"a").unwrap();
    assert_eq!(a, vec![b'a']);
    let (a, _) = p.parse_as_result(b"aa").unwrap();
    assert_eq!(a, vec![b'a', b'a']);
    let r = p.parse_as_result(b"aaa");
    assert!(r.is_err());
}

#[test]
fn test_count_sep() {
    let p1 = elm_ref(b'a');
    let p2 = elm_ref(b',');
    let p = p1.map(|e: &u8| *e).of_count_sep(3, p2);
    let r = p.parse_as_result(b"a,a,a").unwrap();
    assert_eq!(r, vec![b'a', b'a', b'a']);
}

#[test]
fn test_seq() {
    let p = oni_comb_parser::prelude::static_parsers::seq(b"abc");
    let r = p.parse_as_result(b"abc").unwrap();
    assert_eq!(r, b"abc");
}

#[test]
fn test_tag() {
    let input = chars("abe");
    let p = tag("abc").attempt().either(tag("abe"));
    let r = p.parse(&input);
    assert_eq!(r.to_result().unwrap(), "abe");
}

#[test]
fn test_tag_no_case() {
    let input = chars("AbC");
    let p = tag_no_case("abc");
    let r = p.parse_as_result(&input).unwrap();
    assert_eq!(r, "abc");
}

#[test]
fn test_opt() {
    let p = oni_comb_parser::prelude::static_parsers::seq(b"abc").opt();
    if let Some(b) = p.parse_as_result(b"abc").unwrap() {
        assert_eq!(b, b"abc");
    } else {
        panic!()
    }
}

#[test]
fn test_not() {
    let p = oni_comb_parser::prelude::static_parsers::seq(b"abc").not();
    let _ = p.parse_as_result(b"def").unwrap();
}

#[test]
fn test_take() {
    let str = "abc";
    let str_len = str.len();
    let mut input = vec![str_len as u8];
    input.extend_from_slice(str.as_bytes());
    let bytes_parser = take(1).flat_map(|size: &[u8]| take(size[0] as usize));
    let ss = bytes_parser.parse(&input).to_result().map(|r| std::str::from_utf8(r).unwrap()).unwrap();
    assert_eq!(ss, str);
}

#[test]
fn test_take_2() {
    let input1 = chars("abcd");
    let p = elm_ref('a')
        .and_then(elm_ref('b'))
        .flat_map(|e| skip(1).map(move |_: ()| e))
        .and_then(elm_any_ref())
        .and_then(end())
        .collect()
        .map(|chars: &[char]| String::from_iter(chars));
    let result = p.parse_as_result(&input1).unwrap();
    assert_eq!(result, "abcd");
}

#[test]
fn test_take_till0() {
    let p = take_till0(|c: &u8| *c == b'c').map_res(std::str::from_utf8);
    let result = p.parse_as_result(b"abcd");
    assert!(result.is_ok());
    assert_eq!(result.unwrap(), "abc");
}

#[test]
fn test_take_till1() {
    let p = take_till1(|c: &u8| *c == b'c').map_res(std::str::from_utf8);
    let result = p.parse_as_result(b"abcd");
    assert!(result.is_ok());
    assert_eq!(result.unwrap(), "abc");
}

#[test]
fn test_discard() {
    let p = oni_comb_parser::prelude::static_parsers::seq(b"abc").discard();
    let result = p.parse_as_result(b"abc");
    assert!(result.is_ok());
    let result = p.parse_as_result(b"def");
    assert!(result.is_err());
}

#[test]
fn test_and_then() {
    let pv1 = b'a';
    let pv2 = b'b';
    let p = elm_ref(pv1).and_then(elm_ref(pv2));
    let result = p.parse_as_result(b"ab").unwrap();
    let (a, b) = result;
    assert_eq!(*a, pv1);
    assert_eq!(*b, pv2);
}

#[test]
fn test_last_offset() {
    let pv1 = b'a';
    let pv2 = b'b';
    let p1 = elm_ref(pv1);
    let p2 = elm_ref(pv2);
    let p = p1.and_then(p2).last_offset();
    let result = p.parse_as_result(b"ab").unwrap();
    assert_eq!(result, 1);
}

#[test]
fn test_or() {
    let pv1 = b'a';
    let pv2 = b'b';
    let p = elm_ref(pv1).either(elm_ref(pv2));
    let result = p.parse_as_result(b"ab").unwrap();
    assert_eq!(*result, pv1);
    let result = p.parse_as_result(b"ba").unwrap();
    assert_eq!(*result, pv2);
}

#[test]
fn test_skip_left() {
    let pv1 = b'a';
    let pv2 = b'b';
    let p = elm_ref(pv1).skip_left(elm_ref(pv2));
    let result = p.parse_as_result(b"ab").unwrap();
    assert_eq!(*result, pv2);
}

#[test]
fn test_skip_right() {
    let pv1 = b'a';
    let pv2 = b'b';
    let p1 = elm_ref(pv1);
    let p2 = elm_ref(pv2);
    let p = p1.skip_right(p2);
    let result = p.parse_as_result(b"ab").unwrap();
    assert_eq!(*result, pv1);
}

#[test]
fn test_example1() {
    let input1 = chars("abc");
    let input2 = chars("abd");
    let pa = elm_ref('a');
    let pb = elm_ref('b');
    let pc = elm_ref('c');
    let pd = elm_ref('d');
    let p = pa.and_then(pb).and_then(pc.either(pd)).map(|((a, b), c): ((&char, &char), &char)| {
        let mut result = String::new();
        result.push(*a);
        result.push(*b);
        result.push(*c);
        result
    });
    let result = p.parse_as_result(&input1).unwrap();
    assert_eq!(result, "abc");
    let result = p.parse_as_result(&input2).unwrap();
    assert_eq!(result, "abd");
}

#[test]
fn test_example2() {
    let input = chars("aname");
    let p = elm_ref('a').and_then(tag("name")).map(|(a, name_chars): (&char, String)| {
        let mut result = String::new();
        result.push(*a);
        for c in name_chars.chars() {
            result.push(c);
        }
        result
    });
    let result = p.parse_as_result(&input).unwrap();
    assert_eq!(result, "aname");
}

#[test]
fn test_filter() {
    let input = chars("abc");
    let p = elm_ref('a').with_filter(|c: &&char| **c == 'a');
    assert_eq!(*p.parse_as_result(&input).unwrap(), 'a');
}

#[test]
fn test_filter_not() {
    let input = chars("abc");
    let p = elm_ref('a').with_filter(|c: &&char| **c == 'b');
    assert!(p.parse_as_result(&input).is_err());
}

#[test]
fn test_surround_static() {
    let text = "(abc)";
    let input = text.chars().collect::<Vec<_>>();

    let left_parser = elm_ref('(');
    let middle_parser = take(3);
    let right_parser = elm_ref(')');

    let left_result = left_parser.parse(&input);
    println!("Left parser result: {:?}", left_result);
    assert!(left_result.is_success());

    let middle_input = &input[1..];
    let middle_result = middle_parser.parse(middle_input);
    println!("Middle parser result: {:?}", middle_result);
    assert!(middle_result.is_success());

    let right_input = &input[4..];
    let right_result = right_parser.parse(right_input);
    println!("Right parser result: {:?}", right_result);
    assert!(right_result.is_success());

    let parser = surround(elm_ref('('), take(3), elm_ref(')'));

    let result = parser.parse(&input);
    println!("Surround parser result: {:?}", result);

    assert!(result.is_success());
    assert_eq!(result.success().unwrap(), &input[1..4]);
}

#[test]
fn test_failed_lazy_static() {
    let input = chars("abc");
    let counter = std::rc::Rc::new(std::cell::Cell::new(0));
    let counter_clone = counter.clone();
    let p = failed_lazy::<char, char, _>(move || {
        counter_clone.set(counter_clone.get() + 1);
        let error = ParseError::of_mismatch(0, 0, format!("error message: {}", counter_clone.get()));
        (error, CommittedStatus::Uncommitted)
    });
    assert_eq!(counter.get(), 0);
    let result = p.parse_as_result(&input);
    assert!(result.is_err());
    assert_eq!(counter.get(), 1);
    match result {
        Err(ParseError::Mismatch { message, .. }) => assert_eq!(message, "error message: 1"),
        _ => panic!("Expected Mismatch error"),
    }
    let result2 = p.parse_as_result(&input);
    assert!(result2.is_err());
    assert_eq!(counter.get(), 2);
}

#[test]
fn unit_and_empty_consume_nothing() {
    let input = chars("x");
    assert_eq!(unit().parse(&input), ParseResult::Success { value: (), length: 0 });
    assert_eq!(empty().parse(&input), ParseResult::Success { value: (), length: 0 });
}

#[test]
fn begin_succeeds_only_at_offset_zero() {
    let input = chars("ab");
    assert!(begin().run(&input, 0).is_success());
    match begin().run(&input, 1) {
        ParseResult::Failure { error: ParseError::Custom { offset, message, .. }, committed_status } => {
            assert_eq!(offset, 1);
            assert_eq!(message, "expected beginning");
            assert_eq!(committed_status, CommittedStatus::Uncommitted);
        },
        _ => panic!(),
    }
}

#[test]
fn end_reports_the_element_found() {
    let input = chars("a");
    match end().parse(&input) {
        ParseResult::Failure { error: ParseError::Mismatch { offset, length, message }, .. } => {
            assert_eq!(offset, 0);
            assert_eq!(length, 0);
            assert_eq!(message, "expected end of input, but got: a");
        },
        _ => panic!(),
    }
    let bytes: &[u8] = b"7";
    match end().parse(bytes) {
        ParseResult::Failure { error: ParseError::Mismatch { message, .. }, .. } => {
            assert_eq!(message, "expected end of input, but got: 55");
        },
        _ => panic!(),
    }
}

#[test]
fn successful_clones_its_value() {
    let input = chars("xyz");
    assert_eq!(successful(String::from("v")).parse(&input), ParseResult::Success { value: String::from("v"), length: 0 });
}

#[test]
fn failed_gives_its_error_and_status() {
    let input = chars("xyz");
    let p = failed::<char, char>(ParseError::of_in_complete(), CommittedStatus::Committed);
    assert_eq!(
        p.parse(&input),
        ParseResult::Failure { error: ParseError::Incomplete, committed_status: CommittedStatus::Committed }
    );
}

#[test]
fn elm_ref_mismatch_message_names_both_elements() {
    let input = chars("b");
    match elm_ref('a').parse(&input) {
        ParseResult::Failure { error: ParseError::Mismatch { message, .. }, .. } => {
            assert_eq!(message, "expected: 'a', but got: 'b'");
        },
        _ => panic!(),
    }
    match elm_ref('a').parse(&[]) {
        ParseResult::Failure { error: ParseError::Mismatch { message, .. }, .. } => {
            assert_eq!(message, "unexpected end of input");
        },
        _ => panic!(),
    }
}

#[test]
fn seq_mismatch_lists_both_sequences() {
    match oni_comb_parser::prelude::static_parsers::seq(b"ab").parse(b"ax") {
        ParseResult::Failure { error: ParseError::Mismatch { message, .. }, .. } => {
            assert_eq!(message, "expected: [97, 98], but got: [97, 120]");
        },
        _ => panic!(),
    }
}

#[test]
fn tag_mismatch_message() {
    let input = chars("abd");
    match tag("abc").parse(&input) {
        ParseResult::Failure { error: ParseError::Mismatch { message, .. }, .. } => {
            assert_eq!(message, "expected: abc, but got: ['a', 'b', 'd']");
        },
        _ => panic!(),
    }
}

#[test]
fn take_while_docs_examples() {
    let input = chars("abcdef");
    let p0 = take_while0(|e: &char| matches!(*e, 'a'..='c')).map(|s: &[char]| String::from_iter(s));
    assert_eq!(p0.parse(&input).success().unwrap(), "abc");
    let p1 = take_while1(|e: &char| matches!(*e, 'a'..='c')).map(|s: &[char]| String::from_iter(s));
    assert_eq!(p1.parse(&input).success().unwrap(), "abc");
    let pnm = take_while_n_m(1, 3, |e: &char| matches!(*e, 'a'..='c')).map(|s: &[char]| String::from_iter(s));
    assert_eq!(pnm.parse(&input).success().unwrap(), "abc");
    let t0 = take_till0(|e: &char| matches!(*e, 'c')).map(|s: &[char]| String::from_iter(s));
    assert_eq!(t0.parse(&input).success().unwrap(), "abc");
    let t1 = take_till1(|e: &char| matches!(*e, 'c')).map(|s: &[char]| String::from_iter(s));
    assert_eq!(t1.parse(&input).success().unwrap(), "abc");
}

#[test]
fn take_while_edges() {
    let empty_input: &[char] = &[];
    assert_eq!(take_while0(|e: &char| *e == 'a').parse(empty_input), ParseResult::Success { value: empty_input, length: 0 });
    assert_eq!(
        take_while1(|e: &char| *e == 'a').parse(empty_input),
        ParseResult::Failure { error: ParseError::Incomplete, committed_status: CommittedStatus::Uncommitted }
    );
    let input = chars("bbb");
    assert!(take_while1(|e: &char| *e == 'a').parse(&input).is_failure());
    let digits = chars("12345");
    assert!(take_while_n_m(2, 3, |e: &char| e.is_ascii_digit()).parse(&digits[..1]).is_failure());
    assert_eq!(take_while_n_m(2, 3, |e: &char| e.is_ascii_digit()).parse(&digits).success().unwrap().len(), 3);
}

#[test]
fn take_till_edges() {
    let input = chars("xyz");
    assert_eq!(take_till0(|e: &char| *e == 'q').parse(&input).success().unwrap().len(), 3);
    assert!(take_till1(|e: &char| *e == 'q').parse(&input).is_failure());
    assert!(take_till1(|e: &char| *e == 'x').parse(&input).is_failure());
}

#[test]
fn skip_and_take_at_the_end() {
    let input = chars("ab");
    assert_eq!(skip(2).parse(&input), ParseResult::Success { value: (), length: 2 });
    assert!(skip(3).parse(&input).is_failure());
    assert!(take(3).parse(&input).is_failure());
}

#[test]
fn elm_digit_reads_one_digit() {
    let input = chars("12");
    assert_eq!(elm_digit().parse(&input), ParseResult::Success { value: '1', length: 1 });
    assert!(elm_digit().parse(&chars("x")).is_failure());
}

#[test]
fn lazy_builds_the_parser_on_each_run() {
    let input = chars("ab");
    let p = lazy(|| elm_ref('a').and_then(elm_ref('b')));
    assert_eq!(p.parse_as_result(&input).unwrap(), (&'a', &'b'));
}

#[test]
fn try_regex_rejects_a_bad_pattern() {
    assert!(try_regex("(").is_none());
    assert!(try_regex("a+").is_some());
}

#[test]
fn regex_not_at_start_fails() {
    let input = chars("xa");
    match regex("a").parse(&input) {
        ParseResult::Failure { error: ParseError::Mismatch { message, .. }, .. } => {
            assert_eq!(message, "regex pattern did not match at the beginning");
        },
        _ => panic!(),
    }
    match regex("q").parse(&input) {
        ParseResult::Failure { error: ParseError::Mismatch { message, .. }, .. } => {
            assert_eq!(message, "regex pattern did not match");
        },
        _ => panic!(),
    }
}
