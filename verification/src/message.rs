//! Answers to chat commands: countdowns, local times and the command table.
use vstd::prelude::*;
use vstd::string::*;
use crate::clock::{clock_text, fixed_offset_seconds, local_clock, offset_in_range, timestamp_exists, timestamp_in_range};
use crate::database::{Event, event_type_of_token, EventType, get_latest_path, is_next_event, none_upcoming, Store};
use crate::fetch::{fetch_results, results_text, return_wcc_standings, return_wdc_standings, StandingsReply, text_view, wcc_text, wdc_text};
use crate::next_event::event_label;
use crate::text::{chars_of, decimal, lowercase_of, parse_int, parse_int_in, push_decimal, push_two_digits, split_words, str_eq, texts_view, to_lowercase, two_digits, words_of};

verus! {

/// The ending that makes a unit word plural unless the count is one.
pub open spec fn plural_suffix(count: int) -> Seq<char> {
    if count == 1 {
        Seq::<char>::empty()
    } else {
        seq!['s']
    }
}

/// A count with its unit word: `1 day`, `3 hours`.
pub open spec fn unit_text(count: int, unit: Seq<char>) -> Seq<char> {
    decimal(count as nat) + seq![' '] + unit + plural_suffix(count)
}

/// The countdown shown for `secs` seconds: the one or two coarsest units
/// among days, hours and minutes that are not zero.
pub open spec fn duration_text(secs: int) -> Seq<char> {
    let days = secs / 86_400;
    let hours = (secs / 3600) % 24;
    let minutes = (secs / 60) % 60;
    let d = unit_text(days, "day"@);
    let h = unit_text(hours, "hour"@);
    let m = unit_text(minutes, "minute"@);
    if secs <= 0 {
        "0 seconds"@
    } else if days > 0 && hours > 0 {
        d + " and "@ + h
    } else if days > 0 && minutes > 0 {
        d + " and "@ + m
    } else if days > 0 {
        d
    } else if hours > 0 && minutes > 0 {
        h + " and "@ + m
    } else if hours > 0 {
        h
    } else if minutes > 0 {
        m
    } else {
        Seq::<char>::empty()
    }
}

/// The unit word `s`, plural unless `count` is one.
pub fn pluralize(s: &str, count: i64) -> (r: String)
    ensures
        r@ == s@ + plural_suffix(count as int),
{
    let mut out = String::from_str(s);
    if count != 1 {
        out.push('s');
    }
    proof {
        assert(out@ =~= s@ + plural_suffix(count as int));
    }
    out
}

fn push_unit(out: &mut String, count: u64, unit: &str)
    ensures
        final(out)@ == old(out)@ + unit_text(count as int, unit@),
{
    push_decimal(out, count);
    out.push(' ');
    out.append(unit);
    if count != 1 {
        out.push('s');
    }
    proof {
        assert(final(out)@ =~= old(out)@ + unit_text(count as int, unit@));
    }
}

fn push_duration(out: &mut String, secs: i128)
    requires
        -0x1_0000_0000_0000_0000 <= secs <= 0x1_0000_0000_0000_0000,
    ensures
        final(out)@ == old(out)@ + duration_text(secs as int),
{
    if secs <= 0 {
        out.append("0 seconds");
        return ;
    }
    let days: u64 = (secs / 86_400) as u64;
    let hours: u64 = ((secs / 3600) % 24) as u64;
    let minutes: u64 = ((secs / 60) % 60) as u64;
    if days > 0 {
        push_unit(out, days, "day");
        if hours > 0 {
            out.append(" and ");
            push_unit(out, hours, "hour");
        } else if minutes > 0 {
            out.append(" and ");
            push_unit(out, minutes, "minute");
        }
    } else if hours > 0 {
        push_unit(out, hours, "hour");
        if minutes > 0 {
            out.append(" and ");
            push_unit(out, minutes, "minute");
        }
    } else if minutes > 0 {
        push_unit(out, minutes, "minute");
    }
    proof {
        assert(final(out)@ =~= old(out)@ + duration_text(secs as int));
    }
}

/// The countdown text for a span of `seconds`.
pub fn format_duration(seconds: i64) -> (r: String)
    ensures
        r@ == duration_text(seconds as int),
{
    let mut out = String::new();
    push_duration(&mut out, seconds as i128);
    proof {
        assert(out@ =~= duration_text(seconds as int));
    }
    out
}

/// A span that ends now or earlier is shown as zero seconds.
pub proof fn elapsed_duration_is_zero_seconds(secs: int)
    requires
        secs <= 0,
    ensures
        duration_text(secs) == "0 seconds"@,
{
}

/// A countdown never names more than two units: with days and hours shown,
/// the minutes do not change the text.
pub proof fn duration_drops_finer_units(days: int, hours: int, m1: int, m2: int, s1: int, s2: int)
    requires
        days > 0,
        0 < hours < 24,
        0 <= m1 < 60,
        0 <= m2 < 60,
        0 <= s1 < 60,
        0 <= s2 < 60,
    ensures
        duration_text(days * 86_400 + hours * 3600 + m1 * 60 + s1) == duration_text(
            days * 86_400 + hours * 3600 + m2 * 60 + s2,
        ),
        duration_text(days * 86_400 + hours * 3600 + m1 * 60 + s1) == unit_text(days, "day"@)
            + " and "@ + unit_text(hours, "hour"@),
{
    let a = days * 86_400 + hours * 3600 + m1 * 60 + s1;
    let b = days * 86_400 + hours * 3600 + m2 * 60 + s2;
    assert(a / 86_400 == days && b / 86_400 == days);
    assert(a / 3600 == days * 24 + hours && b / 3600 == days * 24 + hours);
    assert((days * 24 + hours) % 24 == hours);
}

/// The first place at or after `from` where `s` holds `c`, or the length of
/// `s` if there is none.
pub open spec fn find_char(s: Seq<char>, c: char, from: int) -> int
    decreases s.len() - from,
{
    if from < 0 || from >= s.len() {
        s.len() as int
    } else if s[from] == c {
        from
    } else {
        find_char(s, c, from + 1)
    }
}

fn find_char_in(v: &Vec<char>, c: char, from: usize) -> (r: usize)
    requires
        from <= v@.len(),
    ensures
        r == find_char(v@, c, from as int),
        from <= r <= v@.len(),
{
    let mut i: usize = from;
    while i < v.len()
        invariant
            from <= i <= v@.len(),
            find_char(v@, c, from as int) == find_char(v@, c, i as int),
        decreases v@.len() - i,
    {
        if v[i] == c {
            return i;
        }
        i += 1;
    }
    i
}

/// Whether `x` fits in 32 bits with a sign.
pub open spec fn fits_i32(x: int) -> bool {
    -0x8000_0000 <= x <= 0x7fff_ffff
}

/// The offset that an hour count and a minute count give under a sign, if
/// every step of the sum fits in 32 bits and the offset is less than a day.
pub open spec fn offset_of_parts(sign: int, hours: int, minutes: int) -> Option<int> {
    let total = (hours * 3600 + minutes * 60) * sign;
    if fits_i32(hours * 3600) && fits_i32(minutes * 60) && fits_i32(hours * 3600 + minutes * 60)
        && offset_in_range(total) {
        Some(total)
    } else {
        None
    }
}

/// The offset, in seconds east of UTC, that a token such as `utc+5:30` or
/// `gmt-3` names: `utc` or `gmt`, then nothing, or a sign, an hour count and
/// at most one colon with a minute count behind it.
pub open spec fn timezone_offset(arg: Seq<char>) -> Option<int> {
    let n = arg.len() as int;
    let colon = find_char(arg, ':', 4);
    let sign: int = if n > 3 && arg[3] == '+' {
        1
    } else {
        -1
    };
    if n < 3 || !(arg.take(3) == seq!['u', 't', 'c'] || arg.take(3) == seq!['g', 'm', 't']) {
        None
    } else if n == 3 {
        Some(0)
    } else if arg[3] != '+' && arg[3] != '-' {
        None
    } else if colon == n {
        match parse_int(arg.subrange(4, n), i32::MIN as int, i32::MAX as int) {
            Some(hours) => offset_of_parts(sign, hours, 0),
            None => None,
        }
    } else if find_char(arg, ':', colon + 1) != n {
        None
    } else {
        match (
            parse_int(arg.subrange(4, colon), i32::MIN as int, i32::MAX as int),
            parse_int(arg.subrange(colon + 1, n), i32::MIN as int, i32::MAX as int),
        ) {
            (Some(hours), Some(minutes)) => offset_of_parts(sign, hours, minutes),
            _ => None,
        }
    }
}

/// A fixed offset from UTC that a chat user asked for.
#[derive(Debug, Clone, Copy, PartialEq, Eq)]
pub struct TimezoneArg {
    offset: i32,
}

fn combine_offset(sign: i64, hours: i64, minutes: i64) -> (r: Option<TimezoneArg>)
    requires
        sign == 1 || sign == -1,
        fits_i32(hours as int),
        fits_i32(minutes as int),
    ensures
        offset_of_parts(sign as int, hours as int, minutes as int) == (match r {
            Some(tz) => Some(tz.seconds()),
            None => None::<int>,
        }),
{
    let from_hours: i64 = hours * 3600;
    let from_minutes: i64 = minutes * 60;
    let sum: i64 = from_hours + from_minutes;
    if from_hours < -0x8000_0000 || from_hours > 0x7fff_ffff || from_minutes < -0x8000_0000
        || from_minutes > 0x7fff_ffff || sum < -0x8000_0000 || sum > 0x7fff_ffff {
        return None;
    }
    let total: i64 = sum * sign;
    if total < -0x8000_0000 || total > 0x7fff_ffff {
        return None;
    }
    match fixed_offset_seconds(total as i32) {
        Some(offset) => Some(TimezoneArg { offset }),
        None => None,
    }
}

impl TimezoneArg {
    #[verifier::type_invariant]
    spec fn in_range(self) -> bool {
        offset_in_range(self.offset as int)
    }

    /// Seconds to add to UTC to get the local time.
    pub closed spec fn seconds(self) -> int {
        self.offset as int
    }

    /// Seconds to add to UTC to get the local time.
    pub fn local_minus_utc(&self) -> (r: i32)
        ensures
            r == self.seconds(),
            offset_in_range(r as int),
    {
        proof {
            use_type_invariant(self);
        }
        self.offset
    }

    /// Reads a timezone token; `None` for anything that is not one.
    pub fn parse(arg: &str) -> (r: Option<TimezoneArg>)
        ensures
            timezone_offset(arg@) == (match r {
                Some(tz) => Some(tz.seconds()),
                None => None::<int>,
            }),
    {
        let v = chars_of(arg);
        let n: usize = v.len();
        if n < 3 {
            return None;
        }
        let utc: bool = v[0] == 'u' && v[1] == 't' && v[2] == 'c';
        let gmt: bool = v[0] == 'g' && v[1] == 'm' && v[2] == 't';
        proof {
            assert(utc == (v@.take(3) =~= seq!['u', 't', 'c'])) by {
                if !utc {
                    assert(v@.take(3)[0] == v@[0] && v@.take(3)[1] == v@[1] && v@.take(3)[2] == v@[2]);
                }
            }
            assert(gmt == (v@.take(3) =~= seq!['g', 'm', 't'])) by {
                if !gmt {
                    assert(v@.take(3)[0] == v@[0] && v@.take(3)[1] == v@[1] && v@.take(3)[2] == v@[2]);
                }
            }
        }
        if !utc && !gmt {
            return None;
        }
        if n == 3 {
            return combine_offset(1, 0, 0);
        }
        let sign: i64 = if v[3] == '+' {
            1
        } else if v[3] == '-' {
            -1
        } else {
            return None;
        };
        let colon: usize = find_char_in(&v, ':', 4);
        if colon == n {
            return match parse_int_in(&v, 4, n, i32::MIN as i64, i32::MAX as i64) {
                Some(hours) => combine_offset(sign, hours, 0),
                None => None,
            };
        }
        let second: usize = find_char_in(&v, ':', colon + 1);
        if second != n {
            return None;
        }
        let hours = parse_int_in(&v, 4, colon, i32::MIN as i64, i32::MAX as i64);
        let minutes = parse_int_in(&v, colon + 1, n, i32::MIN as i64, i32::MAX as i64);
        match (hours, minutes) {
            (Some(h), Some(m)) => combine_offset(sign, h, m),
            _ => None,
        }
    }
}

/// An offset from UTC as shown behind a local time: a sign, then hours and
/// minutes in two places each.
pub open spec fn offset_suffix(offset: int) -> Seq<char> {
    let size = if offset >= 0 {
        offset
    } else {
        -offset
    };
    (if offset >= 0 {
        seq!['+']
    } else {
        seq!['-']
    }) + two_digits((size / 3600) as nat) + seq![':'] + two_digits(((size % 3600) / 60) as nat)
}

/// The announcement of an event by its local time in a zone `offset` seconds
/// east of UTC, where `clock` is what the clock shows there.
pub open spec fn starts_at(name: Seq<char>, clock: Seq<char>, offset: int) -> Seq<char> {
    "\x02"@ + name + "\x02 starts at "@ + clock + " UTC"@ + offset_suffix(offset)
}

/// The announcement of an event by the time left until it starts.
pub open spec fn begins_in(name: Seq<char>, seconds_left: int) -> Seq<char> {
    "\x02"@ + name + "\x02 begins in "@ + duration_text(seconds_left)
}

/// The announcement of the event `name` that starts at the timestamp
/// `event_time`: by local time where a zone was asked for, else by countdown
/// from `now`.
pub open spec fn announcement_text(
    name: Seq<char>,
    event_time: int,
    zone: Option<int>,
    now: int,
) -> Seq<char> {
    match zone {
        Some(offset) => starts_at(name, clock_text(event_time + offset), offset),
        None => begins_in(name, event_time - now),
    }
}

/// In a zone five and a half hours east of UTC, an event is announced by the
/// clock of its start moved on by that much, with the zone written `+05:30`.
pub proof fn local_time_is_shifted_by_the_offset(name: Seq<char>, event_time: int, now: int)
    ensures
        announcement_text(name, event_time, Some(19_800), now) == "\x02"@ + name
            + "\x02 starts at "@ + clock_text(event_time + 19_800) + " UTC"@
            + seq!['+', '0', '5', ':', '3', '0'],
{
    reveal_with_fuel(decimal, 2);
    assert(two_digits(5) =~= seq!['0', '5']);
    assert(two_digits(30) =~= seq!['3', '0']);
    assert(offset_suffix(19_800) =~= seq!['+', '0', '5', ':', '3', '0']);
}

/// Announces an event by the local time `clock` in the zone `offset`.
pub fn starts_at_text(event_name: &str, clock: &str, offset: i32) -> (r: String)
    requires
        offset_in_range(offset as int),
    ensures
        r@ == starts_at(event_name@, clock@, offset as int),
{
    let mut out = String::from_str("\x02");
    out.append(event_name);
    out.append("\x02 starts at ");
    out.append(clock);
    out.append(" UTC");
    let size: u64 = if offset >= 0 {
        out.push('+');
        offset as u64
    } else {
        out.push('-');
        (-(offset as i64)) as u64
    };
    push_two_digits(&mut out, size / 3600);
    out.push(':');
    push_two_digits(&mut out, (size % 3600) / 60);
    proof {
        assert(out@ =~= starts_at(event_name@, clock@, offset as int));
    }
    out
}

/// Announces an event by the time left between `now` and `event_time`.
pub fn begins_in_text(event_name: &str, event_time: i64, now: i64) -> (r: String)
    ensures
        r@ == begins_in(event_name@, event_time - now),
{
    let mut out = String::from_str("\x02");
    out.append(event_name);
    out.append("\x02 begins in ");
    push_duration(&mut out, event_time as i128 - now as i128);
    proof {
        assert(out@ =~= begins_in(event_name@, event_time - now));
    }
    out
}

/// The zone of an optional timezone argument, as seconds east of UTC.
pub open spec fn zone_seconds(timezone: Option<&TimezoneArg>) -> Option<int> {
    match timezone {
        Some(tz) => Some(tz.seconds()),
        None => None,
    }
}

/// Announces the event `event_name` that starts at `event_time`, unless the
/// calendar cannot represent that timestamp.
pub fn string_builder(
    event_name: &str,
    event_time: i64,
    timezone: Option<&TimezoneArg>,
    now: i64,
) -> (r: Result<String, &'static str>)
    ensures
        match r {
            Ok(text) => timestamp_in_range(event_time as int) && text@ == announcement_text(
                event_name@,
                event_time as int,
                zone_seconds(timezone),
                now as int,
            ),
            Err(reason) => !timestamp_in_range(event_time as int) && reason@
                == "Invalid timestamp"@,
        },
{
    if !timestamp_exists(event_time) {
        return Err("Invalid timestamp");
    }
    match timezone {
        Some(tz) => {
            let offset: i32 = tz.local_minus_utc();
            let clock = local_clock(event_time, offset);
            Ok(starts_at_text(event_name, clock.as_str(), offset))
        },
        None => Ok(begins_in_text(event_name, event_time, now)),
    }
}

/// A command of the chat, with the words that follow it.
#[derive(Debug, Clone, PartialEq, Eq)]
pub enum Command {
    Ping,
    Next { timezone: Option<String> },
    When { event_type: Option<String>, timezone: Option<String> },
    Prev,
    Drivers,
    Constructors,
}

/// The word at place `i`, if there are that many words.
pub open spec fn word_at(words: Seq<Seq<char>>, i: int) -> Option<Seq<char>> {
    if 0 <= i < words.len() {
        Some(words[i])
    } else {
        None
    }
}

/// Whether `r` is the command that the words give: the first word names it,
/// the next ones go with it, and any other first word names none.
pub open spec fn is_command(words: Seq<Seq<char>>, r: Option<Command>) -> bool {
    if words.len() == 0 {
        r is None
    } else if words[0] == "ping"@ {
        r == Some(Command::Ping)
    } else if words[0] == "n"@ || words[0] == "next"@ {
        r matches Some(Command::Next { timezone }) && text_view(timezone) == word_at(words, 1)
    } else if words[0] == "w"@ || words[0] == "when"@ {
        r matches Some(Command::When { event_type, timezone }) && text_view(event_type) == word_at(
            words,
            1,
        ) && text_view(timezone) == word_at(words, 2)
    } else if words[0] == "p"@ || words[0] == "prev"@ {
        r == Some(Command::Prev)
    } else if words[0] == "d"@ || words[0] == "drivers"@ {
        r == Some(Command::Drivers)
    } else if words[0] == "c"@ || words[0] == "constructors"@ {
        r == Some(Command::Constructors)
    } else {
        r is None
    }
}

fn copy_word(words: &Vec<String>, i: usize) -> (r: Option<String>)
    ensures
        text_view(r) == word_at(texts_view(words@), i as int),
{
    if i < words.len() {
        Some(words[i].clone())
    } else {
        None
    }
}

/// The command that the words of a message give.
pub fn command_from_words(words: &Vec<String>) -> (r: Option<Command>)
    ensures
        is_command(texts_view(words@), r),
{
    if words.len() == 0 {
        return None;
    }
    let first = words[0].as_str();
    if str_eq(first, "ping") {
        Some(Command::Ping)
    } else if str_eq(first, "n") || str_eq(first, "next") {
        Some(Command::Next { timezone: copy_word(words, 1) })
    } else if str_eq(first, "w") || str_eq(first, "when") {
        Some(Command::When { event_type: copy_word(words, 1), timezone: copy_word(words, 2) })
    } else if str_eq(first, "p") || str_eq(first, "prev") {
        Some(Command::Prev)
    } else if str_eq(first, "d") || str_eq(first, "drivers") {
        Some(Command::Drivers)
    } else if str_eq(first, "c") || str_eq(first, "constructors") {
        Some(Command::Constructors)
    } else {
        None
    }
}

/// The command that a message gives: its words in lower case decide.
pub fn parse_command(message: &str) -> (r: Option<Command>)
    ensures
        is_command(words_of(lowercase_of(message@)), r),
{
    let lowered = to_lowercase(message);
    let words = split_words(lowered.as_str());
    command_from_words(&words)
}

/// Two messages that differ only in the case of their letters give the
/// same command.
pub proof fn command_ignores_case(first: Seq<char>, second: Seq<char>, r: Option<Command>)
    requires
        lowercase_of(first) == lowercase_of(second),
        is_command(words_of(lowercase_of(first)), r),
    ensures
        is_command(words_of(lowercase_of(second)), r),
{
}

/// The zone that an optional timezone word names.
pub open spec fn zone_of_word(word: Option<Seq<char>>) -> Option<int> {
    match word {
        Some(w) => timezone_offset(w),
        None => None,
    }
}

/// The kind that an optional event-type word names.
pub open spec fn kind_of_word(word: Option<Seq<char>>) -> Option<EventType> {
    match word {
        Some(w) => event_type_of_token(w),
        None => None,
    }
}

/// What an answer holds: its text, or the reason why there is none.
pub open spec fn answer_view(r: Result<String, &'static str>) -> Result<Seq<char>, Seq<char>> {
    match r {
        Ok(text) => Ok(text@),
        Err(reason) => Err(reason@),
    }
}

/// An optional word as plain text.
pub open spec fn word_view(word: Option<&str>) -> Option<Seq<char>> {
    match word {
        Some(w) => Some(w@),
        None => None,
    }
}

/// Whether `r` answers the question for the next event of the kind asked
/// for: that none is found, or the announcement of the next one, or the
/// error for a start that the calendar cannot represent.
pub open spec fn is_event_answer(
    events: Seq<Event>,
    now: int,
    kind: Option<EventType>,
    zone: Option<int>,
    r: Result<Seq<char>, Seq<char>>,
) -> bool {
    if none_upcoming(events, now, kind) {
        r == Ok::<Seq<char>, Seq<char>>("No upcoming events found."@)
    } else {
        exists|i: int| #[trigger]
            is_next_event(events, now, kind, i) && (if timestamp_in_range(
                events[i].start_time as int,
            ) {
                r == Ok::<Seq<char>, Seq<char>>(
                    announcement_text(
                        event_label(events[i].meeting_name@, events[i].event_type.spec_name()),
                        events[i].start_time as int,
                        zone,
                        now,
                    ),
                )
            } else {
                r == Err::<Seq<char>, Seq<char>>("Invalid timestamp"@)
            })
    }
}

fn answer_for_event(store: &Store, kind: Option<EventType>, timezone: Option<&str>, now: i64) -> (r:
    Result<String, &'static str>)
    ensures
        is_event_answer(
            store.events@,
            now as int,
            kind,
            zone_of_word(word_view(timezone)),
            answer_view(r),
        ),
{
    let i: usize = match store.next_event_index(now, kind) {
        Some(i) => i,
        None => {
            return Ok(String::from_str("No upcoming events found."));
        },
    };
    let zone = match timezone {
        Some(word) => TimezoneArg::parse(word),
        None => None,
    };
    let event = &store.events[i];
    let mut name = event.meeting_name.clone();
    name.append(": ");
    name.append(event.event_type.to_str());
    proof {
        assert(name@ =~= event_label(event.meeting_name@, event.event_type.spec_name()));
    }
    let r = string_builder(name.as_str(), event.start_time, zone.as_ref(), now);
    proof {
        assert(is_next_event(store.events@, now as int, kind, i as int));
    }
    r
}

/// Whether `text` answers the question for the last result: that none is
/// found, or the delivery message of the result kept under the path that
/// was kept last.
pub open spec fn is_prev_answer(results: Seq<crate::database::ResultRow>, text: Seq<char>) -> bool {
    if results.len() == 0 {
        text == "No previous events found."@
    } else {
        exists|i: int|
            0 <= i < results.len() && (#[trigger] results[i]).path@ == results.last().path@ && text
                == results_text(results[i].data.title@, results[i].data.standings@)
    }
}

/// Answers commands from what the store holds at the time `now`.
pub struct CommandHandler<'a> {
    pub store: &'a Store,
    pub now: i64,
}

impl<'a> CommandHandler<'a> {
    /// The answer to `ping`.
    pub fn handle_ping(&self) -> (r: String)
        ensures
            r@ == "pong"@,
    {
        String::from_str("pong")
    }

    /// The answer to `next`: the next event of any kind.
    pub fn handle_next(&self, timezone: Option<&str>) -> (r: Result<String, &'static str>)
        ensures
            is_event_answer(
                self.store.events@,
                self.now as int,
                None,
                zone_of_word(word_view(timezone)),
                answer_view(r),
            ),
    {
        answer_for_event(self.store, None, timezone, self.now)
    }

    /// The answer to `prev`: the classification that was kept last.
    pub fn handle_prev(&self) -> (r: String)
        ensures
            is_prev_answer(self.store.results@, r@),
    {
        match get_latest_path(self.store) {
            Some(path) => match fetch_results(self.store, path.as_str()) {
                Some(text) => text,
                None => {
                    proof {
                        assert(self.store.results@[self.store.results@.len() - 1].path@ == path@);
                    }
                    String::from_str("No previous events found.")
                },
            },
            None => String::from_str("No previous events found."),
        }
    }

    /// The answer to `drivers`.
    pub fn handle_wdc(&self) -> (r: Reply)
        ensures
            is_standings_reply(
                match self.store.driver_standings {
                    Some(cached) => Some(wdc_text(cached)),
                    None => None,
                },
                Reply::FetchDriverStandings,
                r,
            ),
    {
        match return_wdc_standings(self.store) {
            StandingsReply::Text(text) => Reply::Text(text),
            StandingsReply::NeedsFetch => Reply::FetchDriverStandings,
            StandingsReply::Unavailable => Reply::Text(
                String::from_str("Failed to fetch standings."),
            ),
        }
    }

    /// The answer to `constructors`.
    pub fn handle_wcc(&self) -> (r: Reply)
        ensures
            is_standings_reply(
                match self.store.constructor_standings {
                    Some(cached) => Some(wcc_text(cached)),
                    None => None,
                },
                Reply::FetchConstructorStandings,
                r,
            ),
    {
        match return_wcc_standings(self.store) {
            StandingsReply::Text(text) => Reply::Text(text),
            StandingsReply::NeedsFetch => Reply::FetchConstructorStandings,
            StandingsReply::Unavailable => Reply::Text(
                String::from_str("Failed to fetch standings."),
            ),
        }
    }

    /// The answer to `when`: the next event of the kind that the first word
    /// names, or of any kind where it names none.
    pub fn handle_when(&self, event_type: Option<&str>, timezone: Option<&str>) -> (r: Result<
        String,
        &'static str,
    >)
        ensures
            is_event_answer(
                self.store.events@,
                self.now as int,
                kind_of_word(word_view(event_type)),
                zone_of_word(word_view(timezone)),
                answer_view(r),
            ),
    {
        let kind = match event_type {
            Some(word) => EventType::from_str(word),
            None => None,
        };
        answer_for_event(self.store, kind, timezone, self.now)
    }
}

/// What the bot does about a chat message.
#[derive(Debug, Clone, PartialEq, Eq)]
pub enum Reply {
    /// Nothing is said.
    Silent,
    /// This text goes back to where the message came from.
    Text(String),
    /// The drivers championship has to be fetched and stored first.
    FetchDriverStandings,
    /// The constructors championship has to be fetched and stored first.
    FetchConstructorStandings,
}

/// The reply of a championship command to what is cached.
pub open spec fn is_standings_reply(cached: Option<Option<Seq<char>>>, fetch: Reply, r: Reply) -> bool {
    match cached {
        None => r == fetch,
        Some(Some(text)) => r matches Reply::Text(t) && t@ == text,
        Some(None) => r matches Reply::Text(t) && t@ == "Failed to fetch standings."@,
    }
}

/// An optional word of a command as plain text.
pub open spec fn kept_word(word: Option<String>) -> Option<Seq<char>> {
    match word {
        Some(w) => Some(w@),
        None => None,
    }
}

/// What a reply holds where an answer was asked for: the text of the answer.
pub open spec fn reply_view(r: Result<Reply, &'static str>) -> Result<Seq<char>, Seq<char>> {
    match r {
        Ok(Reply::Text(text)) => Ok(text@),
        Ok(_) => Ok(Seq::empty()),
        Err(reason) => Err(reason@),
    }
}

/// Whether `r` is a text to send or an error.
pub open spec fn is_answer(r: Result<Reply, &'static str>) -> bool {
    match r {
        Ok(reply) => reply is Text,
        Err(_) => true,
    }
}

/// Whether `r` is what the bot does about a command, given what it keeps.
/// No command is passed over in silence; `ping` gets `pong`; the others get
/// the answers of their handlers.
pub open spec fn is_reply(
    store: Store,
    command: Option<Command>,
    now: int,
    r: Result<Reply, &'static str>,
) -> bool {
    match command {
        None => r == Ok::<Reply, &'static str>(Reply::Silent),
        Some(Command::Ping) => r matches Ok(Reply::Text(text)) && text@ == "pong"@,
        Some(Command::Next { timezone }) => is_answer(r) && is_event_answer(
            store.events@,
            now,
            None,
            zone_of_word(kept_word(timezone)),
            reply_view(r),
        ),
        Some(Command::When { event_type, timezone }) => is_answer(r) && is_event_answer(
            store.events@,
            now,
            kind_of_word(kept_word(event_type)),
            zone_of_word(kept_word(timezone)),
            reply_view(r),
        ),
        Some(Command::Prev) => r matches Ok(Reply::Text(text)) && is_prev_answer(
            store.results@,
            text@,
        ),
        Some(Command::Drivers) => r matches Ok(reply) && is_standings_reply(
            match store.driver_standings {
                Some(cached) => Some(wdc_text(cached)),
                None => None,
            },
            Reply::FetchDriverStandings,
            reply,
        ),
        Some(Command::Constructors) => r matches Ok(reply) && is_standings_reply(
            match store.constructor_standings {
                Some(cached) => Some(wcc_text(cached)),
                None => None,
            },
            Reply::FetchConstructorStandings,
            reply,
        ),
    }
}

fn borrow_word(word: &Option<String>) -> (r: Option<&str>)
    ensures
        word_view(r) == kept_word(*word),
{
    match word {
        Some(w) => Some(w.as_str()),
        None => None,
    }
}

fn carry(answer: Result<String, &'static str>) -> (r: Result<Reply, &'static str>)
    ensures
        reply_view(r) == answer_view(answer),
        is_answer(r),
{
    match answer {
        Ok(text) => Ok(Reply::Text(text)),
        Err(reason) => Err(reason),
    }
}

/// What the bot does about a command.
pub fn reply_to_command(store: &Store, command: &Option<Command>, now: i64) -> (r: Result<
    Reply,
    &'static str,
>)
    ensures
        is_reply(*store, *command, now as int, r),
{
    let handler = CommandHandler { store, now };
    match command {
        None => Ok(Reply::Silent),
        Some(Command::Ping) => Ok(Reply::Text(handler.handle_ping())),
        Some(Command::Next { timezone }) => carry(handler.handle_next(borrow_word(timezone))),
        Some(Command::When { event_type, timezone }) => carry(
            handler.handle_when(borrow_word(event_type), borrow_word(timezone)),
        ),
        Some(Command::Prev) => Ok(Reply::Text(handler.handle_prev())),
        Some(Command::Drivers) => Ok(handler.handle_wdc()),
        Some(Command::Constructors) => Ok(handler.handle_wcc()),
    }
}

/// What the bot does about a chat message that is addressed to it: the
/// reply to the command that the message gives.
pub fn handle_irc_message(store: &Store, message: &str, now: i64) -> (r: Result<Reply, &'static str>)
    ensures
        exists|command: Option<Command>| #[trigger]
            is_command(words_of(lowercase_of(message@)), command) && is_reply(
                *store,
                command,
                now as int,
                r,
            ),
{
    let command = parse_command(message);
    reply_to_command(store, &command, now)
}

} // verus!
