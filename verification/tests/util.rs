use snapmirror::util::{
    decimal_string, format_duration, path_as_utf8, text_or_error, zero_padded_string, PathError,
};
use std::path::Path;

#[test]
fn decimal_of_numbers() {
    assert_eq!(decimal_string(0), "0");
    assert_eq!(decimal_string(7), "7");
    assert_eq!(decimal_string(10), "10");
    assert_eq!(decimal_string(1234567890), "1234567890");
    assert_eq!(decimal_string(u64::MAX), "18446744073709551615");
}

#[test]
fn zero_padding_fills_up_to_the_width() {
    assert_eq!(zero_padded_string(0, 16), "0000000000000000");
    assert_eq!(zero_padded_string(42, 16), "0000000000000042");
    assert_eq!(zero_padded_string(42, 2), "42");
    assert_eq!(zero_padded_string(42, 0), "42");
    assert_eq!(zero_padded_string(12345, 3), "12345");
    assert_eq!(zero_padded_string(5, 2), "05");
}

#[test]
fn duration_of_seconds_only() {
    assert_eq!(format_duration(0, 0), "0.00s");
    assert_eq!(format_duration(3, 450_000_000), "3.45s");
    assert_eq!(format_duration(59, 994_999_999), "59.99s");
    assert_eq!(format_duration(5, 4_999_999), "5.00s");
    assert_eq!(format_duration(5, 5_000_000), "5.01s");
    assert_eq!(format_duration(1, 999_999_999), "2.00s");
    assert_eq!(format_duration(59, 999_999_999), "60.00s");
}

#[test]
fn duration_with_minutes() {
    assert_eq!(format_duration(62, 500_000_000), "1m 2.50s");
    assert_eq!(format_duration(60, 0), "1m 0.00s");
    assert_eq!(format_duration(119, 996_000_000), "1m 60.00s");
}

#[test]
fn duration_with_hours() {
    assert_eq!(format_duration(3600, 0), "1h 0.00s");
    assert_eq!(format_duration(3601, 70_000_000), "1h 1.07s");
    assert_eq!(format_duration(3723, 450_000_000), "1h 2m 3.45s");
    assert_eq!(format_duration(360_000, 0), "100h 0.00s");
}

#[test]
fn path_of_text_is_that_text() {
    assert_eq!(path_as_utf8(Path::new("/srv/backup")), Ok("/srv/backup"));
    assert_eq!(path_as_utf8(Path::new("")), Ok(""));
    assert_eq!(path_as_utf8(Path::new("/päth/ü")), Ok("/päth/ü"));
}

#[test]
fn path_without_text_is_refused() {
    assert_eq!(text_or_error(None), Err(PathError::NotUtf8));
    assert_eq!(text_or_error(Some("a")), Ok("a"));
}
