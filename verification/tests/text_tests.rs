use rl_matting::text::{format_age, push_decimal, str_equal, to_decimal};

#[test]
fn string_equality() {
    assert!(str_equal("abc", "abc"));
    assert!(!str_equal("abc", "abd"));
    assert!(!str_equal("abc", "ab"));
    assert!(str_equal("", ""));
    assert!(str_equal("模型", "模型"));
}

#[test]
fn decimal_rendering() {
    assert_eq!(to_decimal(0), "0");
    assert_eq!(to_decimal(7), "7");
    assert_eq!(to_decimal(12345), "12345");
    assert_eq!(to_decimal(u64::MAX), "18446744073709551615");
}

#[test]
fn push_decimal_appends() {
    let mut s = String::from("x");
    push_decimal(&mut s, 42);
    assert_eq!(s, "x42");
}

#[test]
fn age_in_minutes_is_at_least_one() {
    assert_eq!(format_age(0), "1m ago");
    assert_eq!(format_age(59), "1m ago");
    assert_eq!(format_age(120), "2m ago");
    assert_eq!(format_age(3599), "59m ago");
}

#[test]
fn age_in_hours_and_days() {
    assert_eq!(format_age(3600), "1h 0m ago");
    assert_eq!(format_age(3661), "1h 1m ago");
    assert_eq!(format_age(86399), "23h 59m ago");
    assert_eq!(format_age(86400), "1d 0h ago");
    assert_eq!(format_age(90061), "1d 1h ago");
    assert_eq!(format_age(10 * 86400 + 5 * 3600 + 59), "10d 5h ago");
}
