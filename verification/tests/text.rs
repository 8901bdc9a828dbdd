use idem::text::parse_number;
use idem::text::push_decimal;
use idem::text::push_text;
use idem::text::same_text;
use idem::text::surround;

fn decimal(n: u64) -> String {
    let mut text = String::new();
    push_decimal(&mut text, n);
    text
}

#[test]
fn push_decimal_writes_digits() {
    assert_eq!(decimal(0), "0");
    assert_eq!(decimal(7), "7");
    assert_eq!(decimal(10), "10");
    assert_eq!(decimal(4294967295), "4294967295");
    assert_eq!(decimal(18446744073709551615), "18446744073709551615");
}

#[test]
fn push_decimal_appends() {
    let mut text = "line ".to_string();
    push_decimal(&mut text, 42);
    assert_eq!(text, "line 42");
}

#[test]
fn push_text_appends() {
    let mut text = "a".to_string();
    push_text(&mut text, "bc");
    push_text(&mut text, "");
    assert_eq!(text, "abc");
}

#[test]
fn surround_puts_a_text_between_two() {
    assert_eq!(surround("<", "a", ">"), "<a>");
    assert_eq!(surround("", "", ""), "");
}

#[test]
fn parse_number_reads_digits() {
    assert_eq!(parse_number("0"), Some(0));
    assert_eq!(parse_number("7"), Some(7));
    assert_eq!(parse_number("007"), Some(7));
    assert_eq!(parse_number("4294967295"), Some(4294967295));
    assert_eq!(parse_number("00000000000000000000004294967295"), Some(4294967295));
}

#[test]
fn parse_number_takes_a_plus_sign() {
    assert_eq!(parse_number("+5"), Some(5));
    assert_eq!(parse_number("+0"), Some(0));
}

#[test]
fn parse_number_refuses_what_is_no_number() {
    assert_eq!(parse_number(""), None);
    assert_eq!(parse_number("+"), None);
    assert_eq!(parse_number("-1"), None);
    assert_eq!(parse_number("++1"), None);
    assert_eq!(parse_number("1+"), None);
    assert_eq!(parse_number("1a"), None);
    assert_eq!(parse_number("a1"), None);
    assert_eq!(parse_number("1 "), None);
    assert_eq!(parse_number("\u{661}"), None);
}

#[test]
fn parse_number_refuses_what_does_not_fit() {
    assert_eq!(parse_number("4294967296"), None);
    assert_eq!(parse_number("99999999999999999999999999"), None);
}

#[test]
fn parse_number_agrees_with_the_standard_library() {
    for word in ["0", "12", "+12", "-12", "", "+", "4294967295", "4294967296", "1_0", "0x1", " 1"] {
        assert_eq!(parse_number(word), word.parse::<u32>().ok());
    }
}

#[test]
fn parse_number_reads_back_what_push_decimal_writes() {
    for n in [0u32, 1, 9, 10, 99, 100, 65535, 4294967295] {
        assert_eq!(parse_number(&decimal(n as u64)), Some(n));
    }
}

#[test]
fn same_text_compares_characters() {
    assert!(same_text("", ""));
    assert!(same_text("main", "main"));
    assert!(!same_text("main", "mainx"));
    assert!(!same_text("mainx", "main"));
    assert!(!same_text("main", "maim"));
    assert!(!same_text("", "a"));
    assert!(same_text("\u{e9}", "\u{e9}"));
}
