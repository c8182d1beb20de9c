use hamverbot::message::{format_duration, pluralize, string_builder, TimezoneArg};

#[test]
fn two_days_three_hours_five_minutes_drops_the_minutes() {
    let seconds = 2 * 86_400 + 3 * 3600 + 5 * 60;
    assert_eq!(format_duration(seconds), "2 days and 3 hours");
}

#[test]
fn forty_five_minutes() {
    assert_eq!(format_duration(45 * 60), "45 minutes");
}

#[test]
fn zero_and_negative_spans_are_zero_seconds() {
    assert_eq!(format_duration(0), "0 seconds");
    assert_eq!(format_duration(-1), "0 seconds");
    assert_eq!(format_duration(i64::MIN), "0 seconds");
}

#[test]
fn singular_units_take_no_s() {
    assert_eq!(format_duration(86_400 + 3600), "1 day and 1 hour");
    assert_eq!(format_duration(60), "1 minute");
    assert_eq!(format_duration(3600 + 60), "1 hour and 1 minute");
}

#[test]
fn a_zero_unit_between_two_others_is_skipped() {
    assert_eq!(format_duration(2 * 86_400 + 5 * 60), "2 days and 5 minutes");
    assert_eq!(format_duration(3 * 86_400), "3 days");
    assert_eq!(format_duration(7 * 3600 + 59), "7 hours");
}

#[test]
fn under_a_minute_names_no_unit() {
    assert_eq!(format_duration(59), "");
}

#[test]
fn the_longest_span_is_rendered() {
    assert_eq!(format_duration(i64::MAX), "106751991167300 days and 15 hours");
}

#[test]
fn pluralize_adds_s_unless_one() {
    assert_eq!(pluralize("day", 1), "day");
    assert_eq!(pluralize("day", 0), "days");
    assert_eq!(pluralize("hour", 2), "hours");
    assert_eq!(pluralize("minute", -1), "minutes");
}

#[test]
fn timezone_tokens() {
    assert_eq!(TimezoneArg::parse("utc").map(|tz| tz.local_minus_utc()), Some(0));
    assert_eq!(TimezoneArg::parse("gmt").map(|tz| tz.local_minus_utc()), Some(0));
    assert_eq!(TimezoneArg::parse("utc+5:30").map(|tz| tz.local_minus_utc()), Some(19_800));
    assert_eq!(TimezoneArg::parse("gmt-3").map(|tz| tz.local_minus_utc()), Some(-10_800));
    assert_eq!(TimezoneArg::parse("utc+05").map(|tz| tz.local_minus_utc()), Some(18_000));
    assert_eq!(TimezoneArg::parse("utc-0:45").map(|tz| tz.local_minus_utc()), Some(-2_700));
    assert_eq!(TimezoneArg::parse("utc+-5").map(|tz| tz.local_minus_utc()), Some(-18_000));
    assert_eq!(TimezoneArg::parse("utc+23:59").map(|tz| tz.local_minus_utc()), Some(86_340));
}

#[test]
fn timezone_tokens_that_are_refused() {
    assert!(TimezoneArg::parse("").is_none());
    assert!(TimezoneArg::parse("ut").is_none());
    assert!(TimezoneArg::parse("est").is_none());
    assert!(TimezoneArg::parse("UTC+1").is_none());
    assert!(TimezoneArg::parse("utc5").is_none());
    assert!(TimezoneArg::parse("utc+").is_none());
    assert!(TimezoneArg::parse("utc+x").is_none());
    assert!(TimezoneArg::parse("utc+5:").is_none());
    assert!(TimezoneArg::parse("utc+:30").is_none());
    assert!(TimezoneArg::parse("utc+5:30:00").is_none());
    assert!(TimezoneArg::parse("utc+24").is_none());
    assert!(TimezoneArg::parse("utc-24").is_none());
    assert!(TimezoneArg::parse("utc+99999999999").is_none());
    assert!(TimezoneArg::parse("utc+1000000").is_none());
    assert!(TimezoneArg::parse("utc+5 ").is_none());
}

#[test]
fn local_time_in_a_zone_five_and_a_half_hours_east() {
    let tz = TimezoneArg::parse("utc+5:30").unwrap();
    // 2024-03-02 13:00:00 UTC
    let text = string_builder("Bahrain: Race", 1_709_384_400, Some(&tz), 0).unwrap();
    assert_eq!(text, "\x02Bahrain: Race\x02 starts at 18:30 UTC+05:30");
}

#[test]
fn local_time_west_of_utc_crosses_midnight() {
    let tz = TimezoneArg::parse("gmt-3").unwrap();
    // 2024-03-02 01:05:00 UTC
    let text = string_builder("X", 1_709_341_500, Some(&tz), 0).unwrap();
    assert_eq!(text, "\x02X\x02 starts at 22:05 UTC-03:00");
    let tz = TimezoneArg::parse("utc-0:45").unwrap();
    let text = string_builder("X", 1_709_341_500, Some(&tz), 0).unwrap();
    assert_eq!(text, "\x02X\x02 starts at 00:20 UTC-00:45");
}

#[test]
fn local_time_before_the_epoch() {
    let tz = TimezoneArg::parse("utc+1").unwrap();
    let text = string_builder("X", -60, Some(&tz), 0).unwrap();
    assert_eq!(text, "\x02X\x02 starts at 00:59 UTC+01:00");
}

#[test]
fn countdown_without_a_zone() {
    let text = string_builder("Monaco: Qualifying", 1_000_000 + 3 * 3600 + 120, None, 1_000_000).unwrap();
    assert_eq!(text, "\x02Monaco: Qualifying\x02 begins in 3 hours and 2 minutes");
    let text = string_builder("Monaco: Qualifying", 1_000_000, None, 1_000_000).unwrap();
    assert_eq!(text, "\x02Monaco: Qualifying\x02 begins in 0 seconds");
}

#[test]
fn a_timestamp_beyond_the_calendar_is_refused() {
    assert_eq!(string_builder("X", i64::MAX, None, 0), Err("Invalid timestamp"));
    assert_eq!(string_builder("X", i64::MIN, None, 0), Err("Invalid timestamp"));
}
