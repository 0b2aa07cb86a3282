use zypi::text::{chars_lt, contains, eq_ignore_ascii_case, i32_to_decimal, last_position, parse_u64, starts_with, string_of};

fn cs(s: &str) -> Vec<char> {
    s.chars().collect()
}

#[test]
fn parse_u64_like_std() {
    for s in ["0", "42", "+5", "-5", "", "+", "-", "++5", "1a", "007", "18446744073709551615", "18446744073709551616", "١٢"] {
        assert_eq!(parse_u64(&cs(s)), s.parse::<u64>().ok(), "input {s:?}");
    }
}

#[test]
fn ascii_case_insensitive_equality() {
    assert!(eq_ignore_ascii_case("Needed", "nEEDED"));
    assert!(!eq_ignore_ascii_case("needed", "need"));
    assert!(!eq_ignore_ascii_case("Ä", "ä"));
}

#[test]
fn searching_helpers() {
    assert!(contains(&cs("kernel-default"), &cs("def")));
    assert!(contains(&cs("abc"), &cs("")));
    assert!(!contains(&cs("ab"), &cs("abc")));
    assert!(starts_with(&cs("security"), &cs("sec")));
    assert!(!starts_with(&cs("security"), &cs("cur")));
}

#[test]
fn last_dash_position() {
    assert_eq!(last_position(&cs("a-b-c"), '-'), Some(3));
    assert_eq!(last_position(&cs("abc"), '-'), None);
}

#[test]
fn decimal_and_order() {
    assert_eq!(i32_to_decimal(0), "0");
    assert_eq!(i32_to_decimal(-2147483648), "-2147483648");
    assert_eq!(i32_to_decimal(2147483647), "2147483647");
    assert!(chars_lt(&cs("ab"), &cs("b")));
    assert!(chars_lt(&cs("ab"), &cs("abc")));
    assert!(!chars_lt(&cs("abc"), &cs("abc")));
    assert_eq!(string_of(&cs("héllo")), "héllo");
}

