use chrono::Datelike;
use chrono::Timelike;

use rustfully_syndicated::date::{format_rfc2822, normalize, Date, MonthStyle};

fn d(year: u32, month: u32, day: u32) -> Date {
    Date { year, month, day }
}

#[test]
fn abbreviated_month_normalizes() {
    assert_eq!(normalize("Mar 5, 2024", MonthStyle::Abbreviated), Ok(d(2024, 3, 5)));
}

#[test]
fn full_month_normalizes_to_same_instant() {
    assert_eq!(normalize("March 5, 2024", MonthStyle::Full), Ok(d(2024, 3, 5)));
    assert_eq!(
        normalize("March 5, 2024", MonthStyle::Full),
        normalize("Mar 5, 2024", MonthStyle::Abbreviated)
    );
}

#[test]
fn zero_padded_day_normalizes() {
    assert_eq!(normalize("Mar 05, 2024", MonthStyle::Abbreviated), Ok(d(2024, 3, 5)));
}

#[test]
fn two_digit_day_normalizes() {
    assert_eq!(normalize("December 31, 1999", MonthStyle::Full), Ok(d(1999, 12, 31)));
}

#[test]
fn missing_comma_is_error() {
    assert!(normalize("Mar 5 2024", MonthStyle::Abbreviated).is_err());
}

#[test]
fn swapped_fields_are_an_error() {
    assert!(normalize("5 Mar, 2024", MonthStyle::Abbreviated).is_err());
}

#[test]
fn wrong_month_style_is_error() {
    assert!(normalize("March 5, 2024", MonthStyle::Abbreviated).is_err());
    assert!(normalize("Mar 5, 2024", MonthStyle::Full).is_err());
}

#[test]
fn two_digit_year_is_error() {
    assert!(normalize("Mar 5, 24", MonthStyle::Abbreviated).is_err());
}

#[test]
fn trailing_text_is_error() {
    assert!(normalize("Mar 5, 2024 extra", MonthStyle::Abbreviated).is_err());
}

#[test]
fn empty_string_is_error() {
    assert!(normalize("", MonthStyle::Abbreviated).is_err());
}

#[test]
fn nonexistent_calendar_day_is_error() {
    assert!(normalize("Feb 30, 2024", MonthStyle::Abbreviated).is_err());
    assert!(normalize("Apr 31, 2024", MonthStyle::Abbreviated).is_err());
    assert!(normalize("Mar 0, 2024", MonthStyle::Abbreviated).is_err());
}

#[test]
fn leap_day_rules() {
    assert_eq!(normalize("Feb 29, 2024", MonthStyle::Abbreviated), Ok(d(2024, 2, 29)));
    assert!(normalize("Feb 29, 2023", MonthStyle::Abbreviated).is_err());
    assert!(normalize("Feb 29, 1900", MonthStyle::Abbreviated).is_err());
    assert_eq!(normalize("Feb 29, 2000", MonthStyle::Abbreviated), Ok(d(2000, 2, 29)));
}

#[test]
fn renders_fixed_rfc2822_midnight_utc() {
    assert_eq!(
        format_rfc2822(&d(2024, 3, 5)),
        "Tue, 05 Mar 2024 00:00:00 +0000".to_string()
    );
}

#[test]
fn rendering_agrees_with_chrono() {
    let dates = [
        d(2024, 3, 5),
        d(1970, 1, 1),
        d(2000, 2, 29),
        d(1999, 12, 31),
        d(2024, 1, 1),
        d(1, 1, 1),
        d(9999, 12, 31),
    ];
    for x in dates {
        let rendered = format_rfc2822(&x);
        let parsed = chrono::DateTime::parse_from_rfc2822(&rendered).unwrap();
        assert_eq!(parsed.year() as u32, x.year);
        assert_eq!(parsed.month(), x.month);
        assert_eq!(parsed.day(), x.day);
        assert_eq!(parsed.hour(), 0);
        assert_eq!(parsed.minute(), 0);
        assert_eq!(parsed.offset().local_minus_utc(), 0);
    }
}

#[test]
fn normalization_agrees_with_chrono() {
    let nd = chrono::NaiveDate::parse_from_str("Mar 5, 2024", "%b %d, %Y").unwrap();
    let ours = normalize("Mar 5, 2024", MonthStyle::Abbreviated).unwrap();
    assert_eq!(nd.year() as u32, ours.year);
    assert_eq!(nd.month(), ours.month);
    assert_eq!(nd.day(), ours.day);
}
