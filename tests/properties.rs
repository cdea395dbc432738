use human_number::parsers::number::{InvalidInputError, Number};
use human_number::parsers::{humanize, Parser};

#[test]
fn short_numbers_are_unchanged() {
    let p = Number {};
    for s in ["1", "9", "42", "100", "999"] {
        assert_eq!(p.do_human_into(s), s);
    }
}

#[test]
fn long_numbers_get_a_comma_every_three_digits() {
    let p = Number {};
    assert_eq!(p.do_human_into("1234"), "1,234");
    assert_eq!(p.do_human_into("12345"), "12,345");
    assert_eq!(p.do_human_into("123456"), "123,456");
    assert_eq!(p.do_human_into("1234567"), "1,234,567");
    assert_eq!(p.do_human_into("9876543210"), "9,876,543,210");
    assert_eq!(
        p.do_human_into("18446744073709551615"),
        "18,446,744,073,709,551,615"
    );
}

#[test]
fn plain_form_predicate() {
    let p = Number {};
    assert!(p.can_parse_human_from("1"));
    assert!(p.can_parse_human_from("9"));
    assert!(p.can_parse_human_from("5abc"));
    assert!(p.can_parse_human_from("1,000"));
    assert!(!p.can_parse_human_from(""));
    assert!(!p.can_parse_human_from("0"));
    assert!(!p.can_parse_human_from("0123"));
    assert!(!p.can_parse_human_from("a1"));
    assert!(!p.can_parse_human_from("-5"));
    assert!(!p.can_parse_human_from(" 5"));
    assert!(!p.can_parse_human_from("\n5"));
}

#[test]
fn grouping_into_is_not_offered() {
    let p = Number {};
    assert!(!p.can_parse_human_into("1000"));
    assert!(!p.can_parse_human_into(""));
}

#[test]
fn ungrouping_reverses_grouping() {
    let p = Number {};
    for s in ["0", "7", "999", "1000", "10000", "123456", "1000000", "1000000000"] {
        let grouped = p.do_human_into(s);
        assert_eq!(p.do_human_from(&grouped), Ok(String::from(s)));
    }
}

#[test]
fn ungrouping_examples() {
    let p = Number {};
    assert_eq!(p.do_human_from("1,000"), Ok(String::from("1000")));
    assert_eq!(p.do_human_from("1,234,567"), Ok(String::from("1234567")));
    assert_eq!(p.do_human_from("12"), Ok(String::from("12")));
}

#[test]
fn ungrouping_rejects_malformed_input() {
    let p = Number {};
    assert_eq!(p.do_human_from(""), Err(InvalidInputError));
    assert_eq!(p.do_human_from(","), Err(InvalidInputError));
    assert_eq!(p.do_human_from("1000"), Err(InvalidInputError));
    assert_eq!(p.do_human_from("1,0000"), Err(InvalidInputError));
    assert_eq!(p.do_human_from("10,00"), Err(InvalidInputError));
    assert_eq!(p.do_human_from(",100"), Err(InvalidInputError));
    assert_eq!(p.do_human_from("1,000,"), Err(InvalidInputError));
    assert_eq!(p.do_human_from("1,a00"), Err(InvalidInputError));
    assert_eq!(p.do_human_from("0,001"), Err(InvalidInputError));
    assert_eq!(p.do_human_from("-1,000"), Err(InvalidInputError));
}

#[test]
fn humanize_zero_gives_nothing() {
    assert_eq!(humanize("0"), Ok(None));
}

#[test]
fn humanize_examples() {
    assert_eq!(humanize("1000"), Ok(Some(String::from("1,000"))));
    assert_eq!(humanize("10000"), Ok(Some(String::from("10,000"))));
    assert_eq!(humanize("100000"), Ok(Some(String::from("100,000"))));
    assert_eq!(humanize("1000000"), Ok(Some(String::from("1,000,000"))));
    assert_eq!(humanize("1000000000"), Ok(Some(String::from("1,000,000,000"))));
    assert_eq!(humanize("12"), Ok(Some(String::from("12"))));
}

#[test]
fn humanize_declines_what_the_predicate_refuses() {
    assert_eq!(humanize(""), Ok(None));
    assert_eq!(humanize("0123"), Ok(None));
    assert_eq!(humanize("x1000"), Ok(None));
    assert_eq!(humanize("abcd"), Ok(None));
}

#[test]
fn humanize_rejects_accepted_input_that_is_not_a_number() {
    assert_eq!(humanize("5abc"), Err(InvalidInputError));
    assert_eq!(humanize("12a4"), Err(InvalidInputError));
    assert_eq!(humanize("1,000"), Err(InvalidInputError));
    assert_eq!(humanize("9 "), Err(InvalidInputError));
    assert_eq!(humanize("1äöü"), Err(InvalidInputError));
}
