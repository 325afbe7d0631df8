use pingap::util::{concat_str, ends_with, get_pkg_version, parse_dec, starts_with, str_eq};

#[test]
fn string_equality() {
    assert!(str_eq("abc", "abc"));
    assert!(!str_eq("abc", "abd"));
    assert!(!str_eq("abc", "ab"));
    assert!(str_eq("", ""));
}

#[test]
fn prefix_and_suffix() {
    assert!(starts_with("/api/users", "/api"));
    assert!(!starts_with("/ap", "/api"));
    assert!(ends_with("a.example.test", ".example.test"));
    assert!(!ends_with("test", ".example.test"));
    assert!(starts_with("anything", ""));
    assert!(ends_with("anything", ""));
}

#[test]
fn concatenation() {
    assert_eq!(concat_str("foo", "bar"), "foobar");
    assert_eq!(concat_str("", "x"), "x");
}

#[test]
fn bounded_decimal_parsing() {
    assert_eq!(parse_dec("0", 255), Some(0));
    assert_eq!(parse_dec("42", 255), Some(42));
    assert_eq!(parse_dec("255", 255), Some(255));
    assert_eq!(parse_dec("256", 255), None);
    assert_eq!(parse_dec("", 255), None);
    assert_eq!(parse_dec("12a", 255), None);
    assert_eq!(parse_dec("-3", 255), None);
    assert_eq!(parse_dec("4294967295", u32::MAX as u64), Some(u32::MAX as u64));
}

#[test]
fn version_text() {
    assert_eq!(get_pkg_version(), "0.1.0");
}
