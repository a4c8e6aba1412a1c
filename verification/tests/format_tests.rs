use timelog::clamp_nonneg;
use timelog::emph;
use timelog::fmt_duration;
use timelog::fmt_hms_ms;
use timelog::parse_i64;
use timelog::weekday_short;

#[test]
fn test_fmt_duration() {
    assert_eq!(fmt_duration(0), "00h00m");
    assert_eq!(fmt_duration(1000), "00h00m01s");
    assert_eq!(fmt_duration(60000), "00h01m");
    assert_eq!(fmt_duration(61000), "00h01m01s");
    assert_eq!(fmt_duration(3600000), "01h00m");
    assert_eq!(fmt_duration(3661000), "01h01m01s");
}

#[test]
fn test_fmt_hms_ms() {
    assert_eq!(fmt_hms_ms(0), "00:00:00.000");
    assert_eq!(fmt_hms_ms(1500), "00:00:01.500");
    assert_eq!(fmt_hms_ms(61500), "00:01:01.500");
    assert_eq!(fmt_hms_ms(3661500), "01:01:01.500");
}

#[test]
fn test_clamp_nonneg() {
    assert_eq!(clamp_nonneg(-100), 0);
    assert_eq!(clamp_nonneg(0), 0);
    assert_eq!(clamp_nonneg(100), 100);
}

#[test]
fn test_weekday_short() {
    assert_eq!(weekday_short(0), "Mon");
    assert_eq!(weekday_short(1), "Tue");
    assert_eq!(weekday_short(2), "Wed");
    assert_eq!(weekday_short(3), "Thu");
    assert_eq!(weekday_short(4), "Fri");
    assert_eq!(weekday_short(5), "Sat");
    assert_eq!(weekday_short(6), "Sun");
}

#[test]
fn test_emph() {
    // The function returns either plain text or emphasized text depending on
    // whether the output is a terminal. Both are valid results.
    let result = emph("test", false);
    assert!(result == "test" || result == "\x1b[1mtest\x1b[0m");
    let result = emph("test", true);
    assert!(result == "test" || result == "\x1b[1mtest\x1b[0m");
}

#[test]
fn test_duration_edge_cases() {
    // Test zero duration
    assert_eq!(fmt_duration(0), "00h00m");

    // Test exact minutes
    assert_eq!(fmt_duration(60000), "00h01m");
    assert_eq!(fmt_duration(3600000), "01h00m");

    // Test mixed durations
    assert_eq!(fmt_duration(3661000), "01h01m01s");

    // Test large durations
    assert_eq!(fmt_duration(86400000), "24h00m"); // 24 hours

    // Test millisecond formatting
    assert_eq!(fmt_hms_ms(1500), "00:00:01.500");
    assert_eq!(fmt_hms_ms(3661500), "01:01:01.500");
}

#[test]
fn parse_i64_accepts_plain_and_signed_numerals() {
    assert_eq!(parse_i64("3600000"), Some(3600000));
    assert_eq!(parse_i64("0"), Some(0));
    assert_eq!(parse_i64("007"), Some(7));
    assert_eq!(parse_i64("+42"), Some(42));
    assert_eq!(parse_i64("-7"), Some(-7));
    assert_eq!(parse_i64("9223372036854775807"), Some(i64::MAX));
    assert_eq!(parse_i64("-9223372036854775808"), Some(i64::MIN));
}

#[test]
fn parse_i64_rejects_bad_numerals() {
    assert_eq!(parse_i64(""), None);
    assert_eq!(parse_i64("-"), None);
    assert_eq!(parse_i64("+"), None);
    assert_eq!(parse_i64("12a"), None);
    assert_eq!(parse_i64(" 12"), None);
    assert_eq!(parse_i64("9223372036854775808"), None);
    assert_eq!(parse_i64("-9223372036854775809"), None);
    assert_eq!(parse_i64("99999999999999999999999"), None);
}
