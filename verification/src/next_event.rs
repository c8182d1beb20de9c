//! Alerts for sessions that are about to start.
use vstd::prelude::*;
use vstd::string::*;
use crate::clock::{parse_tracker_datetime, tracker_timestamp};
use crate::database::{AlertMark, has_alert, is_next_event, none_upcoming, Store};
use crate::fetch::text_view;
use crate::models::{EventTracker, Timetable};
use crate::text::str_eq;

verus! {

/// Whether an event that starts at `start` is due for its alert at `now`: it
/// starts in at least one whole minute and in less than six.
pub open spec fn in_alert_window(start: int, now: int) -> bool {
    60 <= start - now < 360
}

/// The name under which an event is announced: its meeting, then its session.
pub open spec fn event_label(meeting: Seq<char>, session: Seq<char>) -> Seq<char> {
    meeting + ": "@ + session
}

/// The alert for the event of that name.
pub open spec fn alert_text(name: Seq<char>) -> Seq<char> {
    "🏎️ \x02"@ + name + "\x02 begins in 5 minutes."@
}

/// Whether `after` and `fired` are what one look at the event of that name
/// and start leaves of the marks `before`: where the event is due and bears
/// no mark, its alert goes out and it is marked; otherwise nothing happens.
pub open spec fn is_alert_step(
    before: Seq<AlertMark>,
    after: Seq<AlertMark>,
    name: Seq<char>,
    start: int,
    now: int,
    fired: Option<Seq<char>>,
) -> bool {
    if in_alert_window(start, now) && !has_alert(before, name, start) {
        &&& fired == Some(alert_text(name))
        &&& after.len() == before.len() + 1
        &&& after.drop_last() == before
        &&& after.last().name@ == name
        &&& after.last().start_time == start
    } else {
        fired is None && after == before
    }
}

/// An event whose alert went out is never alerted again, whenever it is
/// looked at next.
pub proof fn alert_fires_once(
    before: Seq<AlertMark>,
    between: Seq<AlertMark>,
    after: Seq<AlertMark>,
    name: Seq<char>,
    start: int,
    first_tick: int,
    second_tick: int,
    first: Option<Seq<char>>,
    second: Option<Seq<char>>,
)
    requires
        is_alert_step(before, between, name, start, first_tick, first),
        is_alert_step(between, after, name, start, second_tick, second),
        first is Some,
    ensures
        second is None,
        after == between,
{
    let last = between.len() - 1;
    assert(between[last].name@ == name && between[last].start_time == start);
}

/// A mark, once set, stays: a look at any event removes none.
pub proof fn alert_marks_stay(
    before: Seq<AlertMark>,
    after: Seq<AlertMark>,
    name: Seq<char>,
    start: int,
    now: int,
    fired: Option<Seq<char>>,
    marked_name: Seq<char>,
    marked_start: int,
)
    requires
        is_alert_step(before, after, name, start, now, fired),
        has_alert(before, marked_name, marked_start),
    ensures
        has_alert(after, marked_name, marked_start),
{
    let i = choose|i: int|
        0 <= i < before.len() && (#[trigger] before[i]).name@ == marked_name && before[i].start_time
            == marked_start;
    if after != before {
        assert(after.drop_last()[i] == after[i]);
    }
    assert(after[i].name@ == marked_name && after[i].start_time == marked_start);
}

/// Looks at the event of that name and start: gives its alert and marks it
/// where it is due and not yet marked.
pub fn alert_for(store: &mut Store, name: String, start_time: i64, now: i64) -> (r: Option<String>)
    requires
        old(store).wf(),
    ensures
        final(store).wf(),
        final(store).events == old(store).events,
        final(store).results == old(store).results,
        final(store).drivers == old(store).drivers,
        final(store).channels == old(store).channels,
        final(store).driver_standings == old(store).driver_standings,
        final(store).constructor_standings == old(store).constructor_standings,
        is_alert_step(
            old(store).alerts@,
            final(store).alerts@,
            name@,
            start_time as int,
            now as int,
            text_view(r),
        ),
{
    let left: i128 = start_time as i128 - now as i128;
    if left < 60 || left >= 360 {
        return None;
    }
    if store.alert_sent(name.as_str(), start_time) {
        return None;
    }
    let mut text = String::from_str("🏎️ \x02");
    text.append(name.as_str());
    text.append("\x02 begins in 5 minutes.");
    store.alerts.push(AlertMark { name, start_time });
    proof {
        assert(final(store).alerts@.drop_last() =~= old(store).alerts@);
    }
    Some(text)
}

/// Whether the timetable entry is still to come.
pub open spec fn is_upcoming_entry(t: Timetable) -> bool {
    t.state@ == "upcoming"@
}

/// The start of a timetable entry as a Unix timestamp, where it can be read.
pub open spec fn entry_start(t: Timetable) -> Option<int> {
    tracker_timestamp(t.start_time@, t.gmt_offset@)
}

/// Whether both starts can be read and `kept` starts after `other`.
pub open spec fn starts_after(kept: Timetable, other: Timetable) -> bool {
    match (entry_start(kept), entry_start(other)) {
        (Some(a), Some(b)) => a > b,
        _ => false,
    }
}

/// The entry kept after the first `n` entries were looked at in turn: the
/// first upcoming one, given up for a later one only where both starts can be
/// read and the later entry starts sooner.
pub open spec fn closest_among(timetables: Seq<Timetable>, n: int) -> Option<int>
    decreases n,
{
    if n <= 0 {
        None
    } else {
        let kept = closest_among(timetables, n - 1);
        if !is_upcoming_entry(timetables[n - 1]) {
            kept
        } else {
            match kept {
                Some(k) => if starts_after(timetables[k], timetables[n - 1]) {
                    Some(n - 1)
                } else {
                    kept
                },
                None => Some(n - 1),
            }
        }
    }
}

/// Where every start can be read, the entry kept is the upcoming entry that
/// starts first, and of those that start together the first listed.
pub proof fn closest_is_earliest(timetables: Seq<Timetable>, n: int)
    requires
        0 <= n <= timetables.len(),
        forall|j: int| 0 <= j < n ==> entry_start(#[trigger] timetables[j]) is Some,
    ensures
        match closest_among(timetables, n) {
            Some(k) => 0 <= k < n && is_upcoming_entry(timetables[k]) && forall|j: int|
                0 <= j < n && is_upcoming_entry(#[trigger] timetables[j]) ==> entry_start(
                    timetables[k],
                )->0 < entry_start(timetables[j])->0 || (entry_start(timetables[k])->0
                    == entry_start(timetables[j])->0 && k <= j),
            None => forall|j: int| 0 <= j < n ==> !is_upcoming_entry(#[trigger] timetables[j]),
        },
    decreases n,
{
    if n > 0 {
        closest_is_earliest(timetables, n - 1);
    }
}

/// The upcoming timetable entry that is closest, as far as starts can be read.
pub fn closest_upcoming(timetables: &Vec<Timetable>) -> (r: Option<usize>)
    ensures
        match r {
            Some(k) => closest_among(timetables@, timetables@.len() as int) == Some(k as int) && k
                < timetables@.len(),
            None => closest_among(timetables@, timetables@.len() as int) is None,
        },
{
    let mut kept: Option<usize> = None;
    let mut kept_start: Option<i64> = None;
    let mut i: usize = 0;
    while i < timetables.len()
        invariant
            i <= timetables@.len(),
            match kept {
                Some(k) => closest_among(timetables@, i as int) == Some(k as int) && k < i
                    && entry_start(timetables@[k as int]) == (match kept_start {
                    Some(t) => Some(t as int),
                    None => None::<int>,
                }),
                None => closest_among(timetables@, i as int) is None,
            },
        decreases timetables@.len() - i,
    {
        let t = &timetables[i];
        if str_eq(t.state.as_str(), "upcoming") {
            let start = parse_tracker_datetime(t.start_time.as_str(), t.gmt_offset.as_str());
            let replace: bool = match kept {
                None => true,
                Some(_) => match (kept_start, start) {
                    (Some(a), Some(b)) => a > b,
                    _ => false,
                },
            };
            if replace {
                kept = Some(i);
                kept_start = start;
            }
        }
        i += 1;
    }
    kept
}

/// Whether `r` and `after` are what the alert check leaves of the marks
/// `before`. The event looked at is the closest upcoming entry of the
/// tracker; an entry whose start cannot be read gives no alert. Where the
/// tracker lists nothing upcoming it is the next event of the schedule.
pub open spec fn is_alert_check(
    before: Store,
    after: Seq<AlertMark>,
    tracker: EventTracker,
    now: int,
    r: Option<Seq<char>>,
) -> bool {
    let timetables = tracker.season_context.timetables@;
    match closest_among(timetables, timetables.len() as int) {
        Some(k) => match entry_start(timetables[k]) {
            Some(start) => is_alert_step(
                before.alerts@,
                after,
                event_label(tracker.race.meeting_official_name@, timetables[k].description@),
                start,
                now,
                r,
            ),
            None => r is None && after == before.alerts@,
        },
        None => (none_upcoming(before.events@, now, None) && r is None && after == before.alerts@)
            || exists|i: int| #[trigger]
            is_next_event(before.events@, now, None, i) && is_alert_step(
                before.alerts@,
                after,
                event_label(before.events@[i].meeting_name@, before.events@[i].event_type.spec_name()),
                before.events@[i].start_time as int,
                now,
                r,
            ),
    }
}

fn label_of(meeting: &str, session: &str) -> (r: String)
    ensures
        r@ == event_label(meeting@, session@),
{
    let mut name = String::from_str(meeting);
    name.append(": ");
    name.append(session);
    name
}

/// The alert check: gives the alert for the event that is next, where it is
/// due and has not gone out before, and marks the event.
pub fn fetch_next_event(store: &mut Store, tracker: &EventTracker, now: i64) -> (r: Option<String>)
    requires
        old(store).wf(),
    ensures
        final(store).wf(),
        final(store).events == old(store).events,
        final(store).results == old(store).results,
        final(store).drivers == old(store).drivers,
        final(store).channels == old(store).channels,
        final(store).driver_standings == old(store).driver_standings,
        final(store).constructor_standings == old(store).constructor_standings,
        is_alert_check(*old(store), final(store).alerts@, *tracker, now as int, text_view(r)),
{
    let timetables = &tracker.season_context.timetables;
    match closest_upcoming(timetables) {
        Some(k) => {
            let entry = &timetables[k];
            match parse_tracker_datetime(entry.start_time.as_str(), entry.gmt_offset.as_str()) {
                Some(start) => {
                    let name = label_of(
                        tracker.race.meeting_official_name.as_str(),
                        entry.description.as_str(),
                    );
                    alert_for(store, name, start, now)
                },
                None => None,
            }
        },
        None => match store.next_event_index(now, None) {
            Some(i) => {
                let name = label_of(
                    store.events[i].meeting_name.as_str(),
                    store.events[i].event_type.to_str(),
                );
                let start: i64 = store.events[i].start_time;
                alert_for(store, name, start, now)
            },
            None => None,
        },
    }
}

/// The timetable entries that are still to come, in the order of the feed;
/// `None` where there is none.
pub fn fetch_events(tracker: &EventTracker) -> (r: Option<Vec<usize>>)
    ensures
        match r {
            Some(found) => {
                &&& found@.len() > 0
                &&& forall|a: int|
                    0 <= a < found@.len() ==> (#[trigger] found@[a])
                        < tracker.season_context.timetables@.len() && is_upcoming_entry(
                        tracker.season_context.timetables@[found@[a] as int],
                    )
                &&& forall|a: int, b: int|
                    0 <= a < b < found@.len() ==> (#[trigger] found@[a]) < (#[trigger] found@[b])
                &&& forall|j: int|
                    0 <= j < tracker.season_context.timetables@.len() && is_upcoming_entry(
                        #[trigger] tracker.season_context.timetables@[j],
                    ) ==> found@.contains(j as usize)
            },
            None => forall|j: int|
                0 <= j < tracker.season_context.timetables@.len() ==> !is_upcoming_entry(
                    #[trigger] tracker.season_context.timetables@[j],
                ),
        },
{
    let timetables = &tracker.season_context.timetables;
    let mut found: Vec<usize> = Vec::new();
    let mut i: usize = 0;
    while i < timetables.len()
        invariant
            i <= timetables@.len(),
            forall|a: int|
                0 <= a < found@.len() ==> (#[trigger] found@[a]) < i && is_upcoming_entry(
                    timetables@[found@[a] as int],
                ),
            forall|a: int, b: int|
                0 <= a < b < found@.len() ==> (#[trigger] found@[a]) < (#[trigger] found@[b]),
            forall|j: int|
                0 <= j < i && is_upcoming_entry(#[trigger] timetables@[j]) ==> found@.contains(
                    j as usize,
                ),
        decreases timetables@.len() - i,
    {
        if str_eq(timetables[i].state.as_str(), "upcoming") {
            let ghost before = found@;
            found.push(i);
            proof {
                assert(found@[before.len() as int] == i);
                assert forall|j: int|
                    0 <= j < i + 1 && is_upcoming_entry(
                        #[trigger] timetables@[j],
                    ) implies found@.contains(j as usize) by {
                    if j < i {
                        let a = choose|a: int| 0 <= a < before.len() && before[a] == j as usize;
                        assert(found@[a] == j as usize);
                    }
                }
            }
        }
        i += 1;
    }
    if found.len() == 0 {
        proof {
            assert forall|j: int| 0 <= j < timetables@.len() implies !is_upcoming_entry(
                #[trigger] timetables@[j],
            ) by {
                if is_upcoming_entry(timetables@[j]) {
                    assert(found@.contains(j as usize));
                }
            }
        }
        None
    } else {
        Some(found)
    }
}

} // verus!
