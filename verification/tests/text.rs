use eir::entity::Value;
use eir::query::{parse_int, Query, QueryIntent};
use eir::text::{decimal_string, normalize, split_whitespace, trim_chars, zero_padded_decimal};

#[test]
fn normalize_lowercases_replaces_hyphens_and_trims() {
    assert_eq!(normalize("  Fizz-Berry SPARK \n"), "fizz berry spark");
    assert_eq!(normalize("ÄPFEL"), "äpfel");
    assert_eq!(normalize(""), "");
}

#[test]
fn split_whitespace_splits_on_runs_of_whitespace() {
    assert_eq!(
        split_whitespace("  fizz \t berry\nspark "),
        vec![String::from("fizz"), String::from("berry"), String::from("spark")]
    );
    assert!(split_whitespace(" \t ").is_empty());
}

#[test]
fn trim_removes_whitespace_at_both_ends() {
    let cs: Vec<char> = "  a b \t".chars().collect();
    assert_eq!(trim_chars(&cs), vec!['a', ' ', 'b']);
}

#[test]
fn decimals_are_written_with_padding() {
    assert_eq!(decimal_string(0), vec!['0']);
    assert_eq!(decimal_string(1203), vec!['1', '2', '0', '3']);
    assert_eq!(zero_padded_decimal(42, 6), "000042".chars().collect::<Vec<_>>());
    assert_eq!(zero_padded_decimal(1234567, 6), "1234567".chars().collect::<Vec<_>>());
}

#[test]
fn values_are_written_as_text() {
    assert_eq!(Value::String("Acme".into()).to_text(), "Acme");
    assert_eq!(Value::Integer(0).to_text(), "0");
    assert_eq!(Value::Integer(-42).to_text(), "-42");
    assert_eq!(Value::Integer(i64::MIN).to_text(), "-9223372036854775808");
    assert_eq!(Value::Integer(i64::MAX).to_text(), "9223372036854775807");
}

#[test]
fn integers_parse_within_i64() {
    let text = |s: &str| s.chars().collect::<Vec<char>>();
    assert_eq!(parse_int(&text("-9223372036854775808")), Some(i64::MIN));
    assert_eq!(parse_int(&text("9223372036854775807")), Some(i64::MAX));
    assert_eq!(parse_int(&text("9223372036854775808")), None);
    assert_eq!(parse_int(&text("-")), None);
    assert_eq!(parse_int(&text("12a")), None);
}

#[test]
fn queries_without_words_are_unknown() {
    let query = Query::parse("   ");
    assert!(matches!(query.intent, QueryIntent::Unknown));
    let query = Query::parse("FizzBerry");
    assert!(matches!(query.intent, QueryIntent::Lookup));
    assert_eq!(query.normalized, "fizzberry");
}

#[test]
fn whitespace_is_the_unicode_white_space_property() {
    for code in 0u32..=0x10ffff {
        if let Some(c) = char::from_u32(code) {
            let text = format!("a{c}b");
            let expected = if c.is_whitespace() { 2 } else { 1 };
            assert_eq!(split_whitespace(&text).len(), expected, "U+{code:04X}");
        }
    }
}

#[test]
fn normal_forms_have_no_hyphens_and_no_surrounding_whitespace() {
    for text in ["  Fizz-Berry SPARK ", "a--b", "-x-", "\u{3000}Ab\u{2003}", ""] {
        let n = normalize(text);
        assert!(!n.contains('-'));
        assert_eq!(n.trim(), n);
    }
    assert_eq!(normalize("a--b"), "a  b");
}
