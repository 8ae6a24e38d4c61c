use stepscores::text::{parse_i32, str_eq, str_starts_with};

#[test]
fn parses_plain_digits() {
    assert_eq!(parse_i32("0"), Some(0));
    assert_eq!(parse_i32("123"), Some(123));
    assert_eq!(parse_i32("007"), Some(7));
}

#[test]
fn parses_signed_numbers() {
    assert_eq!(parse_i32("-5"), Some(-5));
    assert_eq!(parse_i32("+7"), Some(7));
}

#[test]
fn rejects_non_numbers() {
    assert_eq!(parse_i32(""), None);
    assert_eq!(parse_i32("-"), None);
    assert_eq!(parse_i32("+"), None);
    assert_eq!(parse_i32("12a"), None);
    assert_eq!(parse_i32("a12"), None);
    assert_eq!(parse_i32("1 2"), None);
    assert_eq!(parse_i32("--3"), None);
}

#[test]
fn honours_the_i32_range() {
    assert_eq!(parse_i32("2147483647"), Some(i32::MAX));
    assert_eq!(parse_i32("2147483648"), None);
    assert_eq!(parse_i32("-2147483648"), Some(i32::MIN));
    assert_eq!(parse_i32("-2147483649"), None);
    assert_eq!(parse_i32("99999999999999999999"), None);
}

#[test]
fn compares_strings_by_contents() {
    assert!(str_eq("Hard", "Hard"));
    assert!(!str_eq("Hard", "hard"));
    assert!(!str_eq("Hard", "Harder"));
    assert!(str_eq("", ""));
}

#[test]
fn prefix_match_is_inclusive() {
    assert!(str_starts_with("Songs/stepmania_edit/x", "Songs/stepmania_edit"));
    assert!(str_starts_with("Songs/stepmania_edit", "Songs/stepmania_edit"));
    assert!(!str_starts_with("Songs/stepmania_edi", "Songs/stepmania_edit"));
    assert!(!str_starts_with("Other/stepmania_edit", "Songs/stepmania_edit"));
    assert!(str_starts_with("anything", ""));
}
