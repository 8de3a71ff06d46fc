use audio_workflow::date::{days_in_month, parse_date};
use audio_workflow::Date;

#[test]
fn parse_valid_date() {
    let d = parse_date("2026-01-12").unwrap();
    assert_eq!(d, Date { year: 2026, month: 1, day: 12 });
}

#[test]
fn parse_last_day_of_year() {
    let d = parse_date("1999-12-31").unwrap();
    assert_eq!(d, Date { year: 1999, month: 12, day: 31 });
}

#[test]
fn parse_rejects_bad_month() {
    assert!(parse_date("2026-13-01").is_none());
    assert!(parse_date("2026-00-10").is_none());
}

#[test]
fn parse_rejects_bad_day() {
    assert!(parse_date("2026-04-31").is_none());
    assert!(parse_date("2026-01-00").is_none());
    assert!(parse_date("2026-01-32").is_none());
}

#[test]
fn parse_leap_years() {
    assert!(parse_date("2024-02-29").is_some());
    assert!(parse_date("2025-02-29").is_none());
    assert!(parse_date("2000-02-29").is_some());
    assert!(parse_date("1900-02-29").is_none());
}

#[test]
fn parse_rejects_wrong_shape() {
    assert!(parse_date("").is_none());
    assert!(parse_date("2026-1-12").is_none());
    assert!(parse_date("26-01-12").is_none());
    assert!(parse_date("2026/01/12").is_none());
    assert!(parse_date("2026-01-12x").is_none());
    assert!(parse_date("abcd-ef-gh").is_none());
}

#[test]
fn month_lengths() {
    assert_eq!(days_in_month(2026, 1), 31);
    assert_eq!(days_in_month(2026, 4), 30);
    assert_eq!(days_in_month(2026, 2), 28);
    assert_eq!(days_in_month(2028, 2), 29);
}
