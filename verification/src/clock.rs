//! Calendar arithmetic that is left to `chrono`: which timestamps name an
//! instant, what a wall clock shows, and how date strings are read.
use chrono::TimeZone;
use vstd::prelude::*;
use crate::text::two_digits;

verus! {

/// Whether `chrono` can represent the instant `secs` seconds after the Unix epoch.
pub uninterp spec fn timestamp_in_range(secs: int) -> bool;

/// The Unix timestamp that `chrono` reads from an event-tracker date and its
/// GMT offset, if it reads one.
pub uninterp spec fn tracker_timestamp(date: Seq<char>, offset: Seq<char>) -> Option<int>;

/// The Unix timestamp that `chrono` reads from a calendar date with
/// milliseconds and a trailing `Z`, if it reads one.
pub uninterp spec fn calendar_timestamp(text: Seq<char>) -> Option<int>;

/// The Unix timestamp that `chrono` reads from the end date of a session and
/// its GMT offset, if it reads one.
pub uninterp spec fn session_end_timestamp(end_date: Seq<char>, offset: Seq<char>) -> Option<int>;

/// Whether `secs` is a valid offset from UTC: less than a day either way.
pub open spec fn offset_in_range(secs: int) -> bool {
    -86_400 < secs < 86_400
}

/// What a 24-hour clock shows `local` seconds after a midnight: `HH:MM`.
pub open spec fn clock_text(local: int) -> Seq<char> {
    let second_of_day = local % 86_400;
    two_digits((second_of_day / 3600) as nat) + seq![':'] + two_digits(
        ((second_of_day % 3600) / 60) as nat,
    )
}

/// Calls `chrono::FixedOffset::east_opt` and reads the offset back with
/// `local_minus_utc`. Claimed: an offset is made exactly when `secs` is less
/// than a day either way, and it then holds `secs` unchanged.
#[verifier::external_body]
pub(crate) fn fixed_offset_seconds(secs: i32) -> (r: Option<i32>)
    ensures
        r == (if offset_in_range(secs as int) {
            Some(secs)
        } else {
            None::<i32>
        }),
{
    chrono::FixedOffset::east_opt(secs).map(|offset| offset.local_minus_utc())
}

/// Calls `chrono::TimeZone::timestamp_opt` on `Utc` with no nanoseconds.
/// Claimed: only that the answer depends on `secs` alone.
#[verifier::external_body]
pub(crate) fn timestamp_exists(secs: i64) -> (r: bool)
    ensures
        r == timestamp_in_range(secs as int),
{
    chrono::Utc.timestamp_opt(secs, 0).single().is_some()
}

/// Calls `chrono::DateTime::format` with `%H:%M` on the instant `secs`, moved
/// to the zone `offset` seconds east of UTC. Claimed: the text is the
/// time of day of `secs + offset`, hours and minutes in two places each.
#[verifier::external_body]
pub(crate) fn local_clock(secs: i64, offset: i32) -> (r: String)
    requires
        timestamp_in_range(secs as int),
        offset_in_range(offset as int),
    ensures
        r@ == clock_text(secs + offset),
{
    let zone = chrono::FixedOffset::east_opt(offset).unwrap();
    let utc = chrono::Utc.timestamp_opt(secs, 0).single().unwrap();
    utc.with_timezone(&zone).format("%H:%M").to_string()
}

/// Calls `chrono::DateTime::parse_from_str` with `%Y-%m-%dT%H:%M:%S %z` on
/// the date, a space and the offset, and takes the timestamp of what was read.
/// Claimed: only that the answer depends on the two texts alone.
#[verifier::external_body]
pub(crate) fn parse_tracker_datetime(date: &str, offset: &str) -> (r: Option<i64>)
    ensures
        tracker_timestamp(date@, offset@) == (match r {
            Some(t) => Some(t as int),
            None => None::<int>,
        }),
{
    let joined = format!("{} {}", date, offset);
    chrono::DateTime::parse_from_str(&joined, "%Y-%m-%dT%H:%M:%S %z").ok().map(|t| t.timestamp())
}

/// Calls `chrono::TimeZone::datetime_from_str` on `Utc` with
/// `%Y-%m-%dT%H:%M:%S%.3fZ` and takes the timestamp of what was read.
/// Claimed: only that the answer depends on the text alone.
#[allow(deprecated)]
#[verifier::external_body]
pub(crate) fn parse_calendar_datetime(text: &str) -> (r: Option<i64>)
    ensures
        calendar_timestamp(text@) == (match r {
            Some(t) => Some(t as int),
            None => None::<int>,
        }),
{
    chrono::Utc.datetime_from_str(text, "%Y-%m-%dT%H:%M:%S%.3fZ").ok().map(|t| t.timestamp())
}

/// Calls `chrono::DateTime::parse_from_str` with `%Y-%m-%dT%H:%M:%S %:z:00` on
/// the end date, a space, a plus sign and the offset, and takes the timestamp
/// of what was read. Claimed: only that the answer depends on the two texts
/// alone.
#[verifier::external_body]
pub(crate) fn parse_session_end(end_date: &str, offset: &str) -> (r: Option<i64>)
    ensures
        session_end_timestamp(end_date@, offset@) == (match r {
            Some(t) => Some(t as int),
            None => None::<int>,
        }),
{
    let joined = format!("{} +{}", end_date, offset);
    chrono::DateTime::parse_from_str(&joined, "%Y-%m-%dT%H:%M:%S %:z:00").ok().map(
        |t| t.timestamp(),
    )
}

} // verus!
