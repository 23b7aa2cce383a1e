use linkleaf::{parse_date, parse_timestamp_date, CalendarDate};

fn day(year: i32, month: u8, day: u8) -> CalendarDate {
    CalendarDate { year, month, day }
}

#[test]
fn parse_date_accepts_strict_iso() {
    let d = parse_date("2025-09-02").expect("valid date");
    assert_eq!(d, day(2025, 9, 2));
}

#[test]
fn parse_date_trims_whitespace() {
    let d = parse_date("  2024-02-29 \t").expect("valid leap day with whitespace");
    assert_eq!(d, day(2024, 2, 29));
}

#[test]
fn parse_date_rejects_datetime() {
    assert!(parse_date("2025-09-02 12:34:56").is_err());
}

#[test]
fn parse_date_rejects_wrong_separator_or_format() {
    assert!(parse_date("2025/09/02").is_err());
    assert!(parse_date("02-09-2025").is_err());
    assert!(parse_date("2025-9-2").is_err());
}

#[test]
fn parse_date_rejects_invalid_calendar_dates() {
    assert!(parse_date("2025-02-30").is_err());
    assert!(parse_date("2023-02-29").is_err());
    assert!(parse_date("2025-13-01").is_err());
    assert!(parse_date("2025-00-10").is_err());
    assert!(parse_date("2025-01-00").is_err());
}

#[test]
fn parse_date_century_leap_rules() {
    assert_eq!(parse_date("2000-02-29").unwrap(), day(2000, 2, 29));
    assert!(parse_date("1900-02-29").is_err());
    assert_eq!(parse_date("2025-12-31").unwrap(), day(2025, 12, 31));
    assert!(parse_date("2025-04-31").is_err());
}

#[test]
fn timestamp_date_of_valid_timestamps() {
    assert_eq!(parse_timestamp_date("2025-01-02 23:59:59"), Some(day(2025, 1, 2)));
    assert_eq!(parse_timestamp_date("2025-01-03 00:00:00"), Some(day(2025, 1, 3)));
}

#[test]
fn timestamp_date_rejects_malformed_timestamps() {
    assert_eq!(parse_timestamp_date("2025-01-03"), None);
    assert_eq!(parse_timestamp_date("2025-01-03 24:00:00"), None);
    assert_eq!(parse_timestamp_date("2025-01-03 12:60:00"), None);
    assert_eq!(parse_timestamp_date("2025-01-03 12:00:60"), None);
    assert_eq!(parse_timestamp_date("2025-01-03T12:00:00"), None);
    assert_eq!(parse_timestamp_date("2025-02-30 12:00:00"), None);
    assert_eq!(parse_timestamp_date(" 2025-01-03 12:00:00"), None);
}

#[test]
fn parse_date_accepts_signed_years() {
    assert_eq!(parse_date("+2025-09-02").unwrap(), day(2025, 9, 2));
    assert_eq!(parse_date("-0001-03-01").unwrap(), day(-1, 3, 1));
    assert!(parse_date("+-2025-09-02").is_err());
    assert!(parse_date("+25-09-02").is_err());
}

#[test]
fn timestamp_date_accepts_signed_years() {
    assert_eq!(parse_timestamp_date("+2025-01-03 10:00:00"), Some(day(2025, 1, 3)));
    assert_eq!(parse_timestamp_date("-0004-02-29 10:00:00"), Some(day(-4, 2, 29)));
    assert_eq!(parse_timestamp_date("+2025-01-03"), None);
}
