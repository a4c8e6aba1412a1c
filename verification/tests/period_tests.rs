use timelog::format_date;
use timelog::parse_date;
use timelog::period_name;
use timelog::period_range;
use timelog::Date;
use timelog::Period;

fn d(year: u32, month: u32, day: u32) -> Date {
    Date { year, month, day }
}

#[test]
fn test_period_range_today() {
    let today = d(2024, 1, 15);
    let (start, end) = period_range(Period::Today, today);
    assert_eq!(start, today);
    assert_eq!(end, today);
}

#[test]
fn test_period_range_yesterday() {
    let today = d(2024, 1, 15);
    let yesterday = d(2024, 1, 14);
    let (start, end) = period_range(Period::Yesterday, today);
    assert_eq!(start, yesterday);
    assert_eq!(end, yesterday);
}

#[test]
fn test_period_range_this_week() {
    // Monday, Jan 15, 2024
    let today = d(2024, 1, 15);
    let (start, end) = period_range(Period::ThisWeek, today);
    assert_eq!(start, today); // Should be Monday
    assert_eq!(end, today);

    // Wednesday, Jan 17, 2024
    let today = d(2024, 1, 17);
    let monday = d(2024, 1, 15);
    let (start, end) = period_range(Period::ThisWeek, today);
    assert_eq!(start, monday);
    assert_eq!(end, today);
}

#[test]
fn test_period_range_last_week() {
    let today = d(2024, 1, 15); // Monday
    let (start, end) = period_range(Period::LastWeek, today);
    let expected_start = d(2024, 1, 8); // Previous Monday
    let expected_end = d(2024, 1, 14); // Previous Sunday
    assert_eq!(start, expected_start);
    assert_eq!(end, expected_end);
}

#[test]
fn test_period_range_this_month() {
    let today = d(2024, 1, 15);
    let (start, end) = period_range(Period::ThisMonth, today);
    let expected_start = d(2024, 1, 1);
    assert_eq!(start, expected_start);
    assert_eq!(end, today);
}

#[test]
fn test_period_range_last_month() {
    let today = d(2024, 2, 15);
    let (start, end) = period_range(Period::LastMonth, today);
    let expected_start = d(2024, 1, 1);
    let expected_end = d(2024, 1, 31);
    assert_eq!(start, expected_start);
    assert_eq!(end, expected_end);
}

#[test]
fn test_period_range_last_month_january() {
    let today = d(2024, 1, 15);
    let (start, end) = period_range(Period::LastMonth, today);
    let expected_start = d(2023, 12, 1);
    let expected_end = d(2023, 12, 31);
    assert_eq!(start, expected_start);
    assert_eq!(end, expected_end);
}

#[test]
fn test_period_range_ytd() {
    let today = d(2024, 6, 15);
    let (start, end) = period_range(Period::YTD, today);
    let expected_start = d(2024, 1, 1);
    assert_eq!(start, expected_start);
    assert_eq!(end, today);
}

#[test]
fn test_period_range_last_year() {
    let today = d(2024, 6, 15);
    let (start, end) = period_range(Period::LastYear, today);
    let expected_start = d(2023, 1, 1);
    let expected_end = d(2023, 12, 31);
    assert_eq!(start, expected_start);
    assert_eq!(end, expected_end);
}

#[test]
fn last_month_crosses_leap_february() {
    let today = d(2024, 3, 10);
    let (start, end) = period_range(Period::LastMonth, today);
    assert_eq!(start, d(2024, 2, 1));
    assert_eq!(end, d(2024, 2, 29));

    let today = d(2023, 3, 10);
    let (_, end) = period_range(Period::LastMonth, today);
    assert_eq!(end, d(2023, 2, 28));
}

#[test]
fn this_week_always_starts_monday() {
    // A Sunday: the week began six days earlier.
    let today = d(2024, 1, 21);
    let (start, end) = period_range(Period::ThisWeek, today);
    assert_eq!(start, d(2024, 1, 15));
    assert_eq!(end, today);

    // A week spanning a month boundary: Friday, March 1st, 2024.
    let today = d(2024, 3, 1);
    let (start, _) = period_range(Period::ThisWeek, today);
    assert_eq!(start, d(2024, 2, 26)); // the preceding Monday

    // A week spanning a year boundary: Wednesday, January 1st, 2025.
    let today = d(2025, 1, 1);
    let (start, _) = period_range(Period::ThisWeek, today);
    assert_eq!(start, d(2024, 12, 30));

    // The range is idempotent under its own output: the week of its start
    // is the single-day range at that start.
    let again = period_range(Period::ThisWeek, start);
    assert_eq!(again, (start, start));
}

#[test]
fn period_names_are_lowercase_canonical() {
    assert_eq!(period_name(Period::Today), "today");
    assert_eq!(period_name(Period::Yesterday), "yesterday");
    assert_eq!(period_name(Period::ThisWeek), "thisweek");
    assert_eq!(period_name(Period::LastWeek), "lastweek");
    assert_eq!(period_name(Period::ThisMonth), "thismonth");
    assert_eq!(period_name(Period::LastMonth), "lastmonth");
    assert_eq!(period_name(Period::YTD), "ytd");
    assert_eq!(period_name(Period::LastYear), "lastyear");
}

#[test]
fn date_text_round_trips() {
    assert_eq!(format_date(d(2024, 1, 15)), "2024-01-15");
    assert_eq!(parse_date("2024-01-15"), Some(d(2024, 1, 15)));
    assert_eq!(parse_date(&format_date(d(999, 12, 31))), Some(d(999, 12, 31)));
    assert_eq!(parse_date("2024-02-29"), Some(d(2024, 2, 29)));
}

#[test]
fn parse_date_rejects_malformed_dates() {
    assert_eq!(parse_date("2023-02-29"), None); // not a leap year
    assert_eq!(parse_date("2024-13-01"), None);
    assert_eq!(parse_date("2024-00-10"), None);
    assert_eq!(parse_date("2024-02-30"), None);
    assert_eq!(parse_date("2024-2-5"), None); // fields must be zero-padded
    assert_eq!(parse_date("0000-01-01"), None);
    assert_eq!(parse_date("2024/01/15"), None);
    assert_eq!(parse_date("2024-01-15x"), None);
    assert_eq!(parse_date(""), None);
}
