use lute_core::helpers::text::{
    eq_ignore_ascii_case, find, has_prefix, lex_order, parse_i64, push_decimal,
    push_signed_decimal, push_text, same_text, string_of, to_chars,
};

fn parse(s: &str) -> Option<i64> {
    let chars = to_chars(s);
    parse_i64(&chars, 0, chars.len())
}

fn decimal(n: i64) -> String {
    let mut out = String::new();
    push_signed_decimal(&mut out, n);
    out
}

#[test]
fn numbers_are_written_in_decimal() {
    let mut out = String::from("n=");
    push_decimal(&mut out, 0);
    push_text(&mut out, ",");
    push_decimal(&mut out, 1234567890);
    push_text(&mut out, ",");
    push_decimal(&mut out, u64::MAX);
    assert_eq!(out, "n=0,1234567890,18446744073709551615");
    assert_eq!(decimal(0), "0");
    assert_eq!(decimal(-1), "-1");
    assert_eq!(decimal(i64::MAX), "9223372036854775807");
    assert_eq!(decimal(i64::MIN), "-9223372036854775808");
}

#[test]
fn decimal_numbers_are_read_as_the_standard_library_reads_them() {
    for text in ["0", "-0", "+0", "007", "42", "-42", "+42", "9223372036854775807", "-9223372036854775808"] {
        assert_eq!(parse(text), text.parse::<i64>().ok(), "{}", text);
        assert!(parse(text).is_some(), "{}", text);
    }
    for text in ["", "+", "-", "--1", "1-", " 1", "1 ", "1_000", "0x10", "٣", "9223372036854775808",
        "-9223372036854775809", "99999999999999999999999", "1e3", "1.0"]
    {
        assert_eq!(parse(text), None, "{}", text);
        assert!(text.parse::<i64>().is_err(), "{}", text);
    }
    assert_eq!(parse("0"), Some(0));
    assert_eq!(parse("-9223372036854775808"), Some(i64::MIN));
    assert_eq!(parse("9223372036854775807"), Some(i64::MAX));
}

#[test]
fn what_is_written_is_read_back() {
    for n in [0i64, 1, -1, 10, -10, 99, 100, 1700000000, i64::MAX, i64::MIN, i64::MIN + 1] {
        assert_eq!(parse(&decimal(n)), Some(n));
    }
    let chars = to_chars("ab12cd");
    assert_eq!(parse_i64(&chars, 2, 4), Some(12));
    assert_eq!(parse_i64(&chars, 2, 2), None);
    assert_eq!(string_of(&chars, 1, 5), "b12c");
    assert_eq!(string_of(&chars, 3, 3), "");
}

#[test]
fn the_leftmost_occurrence_is_found() {
    let hay = to_chars("abcabcabc");
    let needle = to_chars("bca");
    assert_eq!(find(&hay, &needle, 0), Some(1));
    assert_eq!(find(&hay, &needle, 1), Some(1));
    assert_eq!(find(&hay, &needle, 2), Some(4));
    assert_eq!(find(&hay, &needle, 5), None);
    assert_eq!(find(&hay, &needle, 100), None);
    assert_eq!(find(&hay, &to_chars("abcabcabcd"), 0), None);
    assert_eq!(find(&hay, &to_chars(""), 0), Some(0));
    assert_eq!(find(&hay, &to_chars(""), 9), Some(9));
    assert_eq!(find(&hay, &to_chars(""), 10), None);
    assert_eq!(find(&to_chars("ééa"), &to_chars("a"), 0), Some(2));
}

#[test]
fn prefixes_and_equality_go_by_characters() {
    assert!(has_prefix("crawl_similar_albums:x", "crawl_similar_albums:"));
    assert!(has_prefix("abc", ""));
    assert!(has_prefix("", ""));
    assert!(!has_prefix("ab", "abc"));
    assert!(!has_prefix("xabc", "abc"));
    assert!(same_text("héllo", "héllo"));
    assert!(!same_text("hello", "hellO"));
    assert!(!same_text("hello", "hell"));
    assert!(same_text("", ""));
}

#[test]
fn case_is_ignored_for_ascii_letters_only() {
    assert!(eq_ignore_ascii_case("Kid A", "kID a"));
    assert!(eq_ignore_ascii_case("", ""));
    assert!(eq_ignore_ascii_case("az[", "AZ["));
    assert!(!eq_ignore_ascii_case("a", "ab"));
    assert!(!eq_ignore_ascii_case("É", "é"));
    assert!(!eq_ignore_ascii_case("@", "`"));
    assert!(!eq_ignore_ascii_case("[", "{"));
    for (a, b) in [("Kid A", "kid a"), ("x", "y"), ("É", "é"), ("@", "`")] {
        assert_eq!(eq_ignore_ascii_case(a, b), a.eq_ignore_ascii_case(b));
    }
}

#[test]
fn dictionary_order_goes_by_character_code() {
    let words = ["", "a", "B", "ab", "b", "é", "a\u{10000}", "a\u{ffff}", "aa"];
    for a in words {
        for b in words {
            assert_eq!(lex_order(a, b), a <= b, "{:?} {:?}", a, b);
        }
    }
}
