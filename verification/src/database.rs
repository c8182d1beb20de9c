//! The kinds of session, and the store of scheduled events, delivered
//! results, known drivers, joined channels and sent alerts.
use vstd::prelude::*;
use crate::models::{CurrentConstructorStandings, CurrentDriverStandings, SessionResults};
use crate::text::str_eq;

verus! {

/// The kind of a scheduled session.
#[derive(Clone, Copy, Debug, PartialEq, Eq, Structural)]
pub enum EventType {
    LiveryReveal,
    FreePractice1,
    FreePractice2,
    FreePractice3,
    Qualifying,
    Sprint,
    Race,
    SprintQualifying,
}

/// The kind that a token names, if it is one of the accepted synonyms.
pub open spec fn event_type_of_token(s: Seq<char>) -> Option<EventType> {
    if s == "livery reveal"@ || s == "l"@ || s == "livery"@ {
        Some(EventType::LiveryReveal)
    } else if s == "practice 1"@ || s == "p1"@ || s == "fp1"@ {
        Some(EventType::FreePractice1)
    } else if s == "practice 2"@ || s == "p2"@ || s == "fp2"@ {
        Some(EventType::FreePractice2)
    } else if s == "practice 3"@ || s == "p3"@ || s == "fp3"@ {
        Some(EventType::FreePractice3)
    } else if s == "qualifying"@ || s == "quali"@ || s == "q"@ {
        Some(EventType::Qualifying)
    } else if s == "sprint qualifying"@ || s == "sq"@ || s == "sprint_qualifying"@ {
        Some(EventType::SprintQualifying)
    } else if s == "sprint"@ || s == "s"@ {
        Some(EventType::Sprint)
    } else if s == "race"@ || s == "r"@ || s == "gp"@ {
        Some(EventType::Race)
    } else {
        None
    }
}

impl EventType {
    /// The number under which the kind is stored.
    pub open spec fn spec_id(self) -> int {
        match self {
            EventType::LiveryReveal => 1,
            EventType::FreePractice1 => 2,
            EventType::FreePractice2 => 3,
            EventType::FreePractice3 => 4,
            EventType::Qualifying => 5,
            EventType::Sprint => 6,
            EventType::Race => 7,
            EventType::SprintQualifying => 8,
        }
    }

    /// The icon shown before a meeting of this kind.
    pub open spec fn spec_emoji(self) -> Seq<char> {
        match self {
            EventType::LiveryReveal => ""@,
            EventType::FreePractice1 | EventType::FreePractice2 | EventType::FreePractice3 => "🏎️"@,
            EventType::Qualifying | EventType::SprintQualifying => "⏱️"@,
            EventType::Sprint => "🏎"@,
            EventType::Race => "🏁"@,
        }
    }

    /// The name shown for this kind.
    pub open spec fn spec_name(self) -> Seq<char> {
        match self {
            EventType::LiveryReveal => "Livery Reveal"@,
            EventType::FreePractice1 => "Practice 1"@,
            EventType::FreePractice2 => "Practice 2"@,
            EventType::FreePractice3 => "Practice 3"@,
            EventType::Qualifying => "Qualifying"@,
            EventType::SprintQualifying => "Sprint Qualifying"@,
            EventType::Sprint => "Sprint"@,
            EventType::Race => "Race"@,
        }
    }

    /// Reads a kind from one of its synonyms; any other token names none.
    pub fn from_str(s: &str) -> (r: Option<EventType>)
        ensures
            r == event_type_of_token(s@),
    {
        if str_eq(s, "livery reveal") || str_eq(s, "l") || str_eq(s, "livery") {
            Some(EventType::LiveryReveal)
        } else if str_eq(s, "practice 1") || str_eq(s, "p1") || str_eq(s, "fp1") {
            Some(EventType::FreePractice1)
        } else if str_eq(s, "practice 2") || str_eq(s, "p2") || str_eq(s, "fp2") {
            Some(EventType::FreePractice2)
        } else if str_eq(s, "practice 3") || str_eq(s, "p3") || str_eq(s, "fp3") {
            Some(EventType::FreePractice3)
        } else if str_eq(s, "qualifying") || str_eq(s, "quali") || str_eq(s, "q") {
            Some(EventType::Qualifying)
        } else if str_eq(s, "sprint qualifying") || str_eq(s, "sq") || str_eq(s, "sprint_qualifying") {
            Some(EventType::SprintQualifying)
        } else if str_eq(s, "sprint") || str_eq(s, "s") {
            Some(EventType::Sprint)
        } else if str_eq(s, "race") || str_eq(s, "r") || str_eq(s, "gp") {
            Some(EventType::Race)
        } else {
            None
        }
    }

    /// The icon shown before a meeting of this kind.
    pub fn to_emoji(&self) -> (r: &'static str)
        ensures
            r@ == self.spec_emoji(),
    {
        match self {
            EventType::LiveryReveal => "",
            EventType::FreePractice1 | EventType::FreePractice2 | EventType::FreePractice3 => "🏎️",
            EventType::Qualifying | EventType::SprintQualifying => "⏱️",
            EventType::Sprint => "🏎",
            EventType::Race => "🏁",
        }
    }

    /// The name shown for this kind.
    pub fn to_str(&self) -> (r: &'static str)
        ensures
            r@ == self.spec_name(),
    {
        match self {
            EventType::LiveryReveal => "Livery Reveal",
            EventType::FreePractice1 => "Practice 1",
            EventType::FreePractice2 => "Practice 2",
            EventType::FreePractice3 => "Practice 3",
            EventType::Qualifying => "Qualifying",
            EventType::SprintQualifying => "Sprint Qualifying",
            EventType::Sprint => "Sprint",
            EventType::Race => "Race",
        }
    }

    /// The kind stored under `value`, which must be one of the eight numbers in use.
    pub fn from_i64(value: i64) -> (r: EventType)
        requires
            1 <= value <= 8,
        ensures
            r.spec_id() == value,
    {
        if value == 1 {
            EventType::LiveryReveal
        } else if value == 2 {
            EventType::FreePractice1
        } else if value == 3 {
            EventType::FreePractice2
        } else if value == 4 {
            EventType::FreePractice3
        } else if value == 5 {
            EventType::Qualifying
        } else if value == 6 {
            EventType::Sprint
        } else if value == 7 {
            EventType::Race
        } else {
            EventType::SprintQualifying
        }
    }

    /// The number under which the kind is stored.
    pub fn id(&self) -> (r: i64)
        ensures
            r == self.spec_id(),
    {
        match self {
            EventType::LiveryReveal => 1,
            EventType::FreePractice1 => 2,
            EventType::FreePractice2 => 3,
            EventType::FreePractice3 => 4,
            EventType::Qualifying => 5,
            EventType::Sprint => 6,
            EventType::Race => 7,
            EventType::SprintQualifying => 8,
        }
    }
}

/// Two kinds with the same number are the same kind.
pub proof fn event_type_id_is_injective(a: EventType, b: EventType)
    requires
        a.spec_id() == b.spec_id(),
    ensures
        a == b,
{
}

/// A scheduled session.
#[derive(Debug, Clone, PartialEq, Eq)]
pub struct Event {
    pub meeting_name: String,
    pub event_type: EventType,
    pub start_time: i64,
    /// The key under which the event is entered; an event without one is
    /// never entered in place of another.
    pub event_slug: Option<String>,
}

/// What an event holds, as plain values.
pub struct EventView {
    pub meeting_name: Seq<char>,
    pub event_type: EventType,
    pub start_time: int,
    pub event_slug: Option<Seq<char>>,
}

/// What an optional slug holds.
pub open spec fn slug_view(slug: Option<String>) -> Option<Seq<char>> {
    match slug {
        Some(s) => Some(s@),
        None => None,
    }
}

impl View for Event {
    type V = EventView;

    open spec fn view(&self) -> EventView {
        EventView {
            meeting_name: self.meeting_name@,
            event_type: self.event_type,
            start_time: self.start_time as int,
            event_slug: slug_view(self.event_slug),
        }
    }
}

/// What a list of events holds, event by event.
pub open spec fn event_views(events: Seq<Event>) -> Seq<EventView> {
    Seq::new(events.len(), |i: int| events[i]@)
}

/// The first row at or after `from` that is kept under `slug`, or the number
/// of rows if there is none.
pub open spec fn slug_row(events: Seq<EventView>, slug: Option<Seq<char>>, from: int) -> int
    decreases events.len() - from,
{
    if from < 0 || from >= events.len() {
        events.len() as int
    } else if events[from].event_slug == slug {
        from
    } else {
        slug_row(events, slug, from + 1)
    }
}

/// The schedule after `entry` is entered under its slug: where the slug is
/// kept already, that event takes the start time of `entry` and keeps the
/// rest; otherwise, and where `entry` has no slug, it is added behind the
/// others.
pub open spec fn upserted(events: Seq<EventView>, entry: EventView) -> Seq<EventView> {
    let row = slug_row(events, entry.event_slug, 0);
    if entry.event_slug is Some && row < events.len() {
        events.update(row, EventView { start_time: entry.start_time, ..events[row] })
    } else {
        events.push(entry)
    }
}

/// The first row at or after `from` that holds the driver with this racing
/// number, or the number of rows if there is none.
pub open spec fn driver_row(drivers: Seq<DriverRef>, number: int, from: int) -> int
    decreases drivers.len() - from,
{
    if from < 0 || from >= drivers.len() {
        drivers.len() as int
    } else if drivers[from].racing_number == number {
        from
    } else {
        driver_row(drivers, number, from + 1)
    }
}

/// The driver table after `driver` is entered under their racing number: in
/// place of whoever was kept under it, or behind the others.
pub open spec fn driver_upserted(drivers: Seq<DriverRef>, driver: DriverRef) -> Seq<DriverRef> {
    let row = driver_row(drivers, driver.racing_number as int, 0);
    if row < drivers.len() {
        drivers.update(row, driver)
    } else {
        drivers.push(driver)
    }
}

/// The cached classification of a finished session, kept under the path
/// that the timing service gave the session.
#[derive(Debug, Clone, PartialEq, Eq)]
pub struct ResultRow {
    pub path: String,
    pub data: SessionResults,
    /// The row of the session that the classification belongs to, if known.
    pub event: Option<usize>,
    /// When the classification was kept, as a Unix timestamp.
    pub create_time: i64,
}

/// A driver of the reference table, found by racing number.
#[derive(Debug, Clone, PartialEq, Eq)]
pub struct DriverRef {
    pub racing_number: i64,
    pub tla: String,
    pub team_name: String,
}

/// The mark that an alert went out for the event of that name and start.
#[derive(Debug, Clone, PartialEq, Eq)]
pub struct AlertMark {
    pub name: String,
    pub start_time: i64,
}

/// Everything the bot keeps between ticks.
#[derive(Debug, Clone, PartialEq, Eq)]
pub struct Store {
    pub events: Vec<Event>,
    pub results: Vec<ResultRow>,
    pub drivers: Vec<DriverRef>,
    pub channels: Vec<String>,
    pub alerts: Vec<AlertMark>,
    pub driver_standings: Option<CurrentDriverStandings>,
    pub constructor_standings: Option<CurrentConstructorStandings>,
}

/// Whether an event is kept under `slug`.
pub open spec fn has_slug(events: Seq<Event>, slug: Seq<char>) -> bool {
    exists|i: int| 0 <= i < events.len() && (#[trigger] events[i])@.event_slug == Some(slug)
}

/// Whether a result is kept under `path`.
pub open spec fn has_path(results: Seq<ResultRow>, path: Seq<char>) -> bool {
    exists|i: int| 0 <= i < results.len() && (#[trigger] results[i]).path@ == path
}

/// Whether a driver is kept under `number`.
pub open spec fn has_driver(drivers: Seq<DriverRef>, number: int) -> bool {
    exists|i: int| 0 <= i < drivers.len() && (#[trigger] drivers[i]).racing_number == number
}

/// Whether an alert was marked for the event of that name and start.
pub open spec fn has_alert(alerts: Seq<AlertMark>, name: Seq<char>, start_time: int) -> bool {
    exists|i: int|
        0 <= i < alerts.len() && (#[trigger] alerts[i]).name@ == name && alerts[i].start_time
            == start_time
}

/// How many results are kept under `path`.
pub open spec fn path_count(results: Seq<ResultRow>, path: Seq<char>) -> nat
    decreases results.len(),
{
    if results.len() == 0 {
        0
    } else {
        path_count(results.drop_last(), path) + (if results.last().path@ == path {
            1nat
        } else {
            0nat
        })
    }
}

/// No slug is kept twice.
pub open spec fn unique_slugs(events: Seq<Event>) -> bool {
    views_unique(event_views(events))
}

/// No path is kept twice.
pub open spec fn unique_paths(results: Seq<ResultRow>) -> bool {
    forall|i: int, j: int|
        0 <= i < j < results.len() ==> (#[trigger] results[i]).path@ != (
        #[trigger] results[j]).path@
}

/// No racing number is kept twice.
pub open spec fn unique_numbers(drivers: Seq<DriverRef>) -> bool {
    forall|i: int, j: int|
        0 <= i < j < drivers.len() ==> (#[trigger] drivers[i]).racing_number != (
        #[trigger] drivers[j]).racing_number
}

/// Whether `e` starts after `now` and is of the kind asked for, if one was.
pub open spec fn is_upcoming(e: Event, now: int, kind: Option<EventType>) -> bool {
    e.start_time > now && (kind matches Some(k) ==> e.event_type == k)
}

/// Whether the event at `i` is the next one: upcoming, and no other upcoming
/// event starts earlier, nor at the same time from an earlier row.
pub open spec fn is_next_event(events: Seq<Event>, now: int, kind: Option<EventType>, i: int) -> bool {
    &&& 0 <= i < events.len()
    &&& is_upcoming(events[i], now, kind)
    &&& forall|j: int|
        0 <= j < events.len() && is_upcoming(#[trigger] events[j], now, kind) ==> events[i].start_time
            < events[j].start_time || (events[i].start_time == events[j].start_time && i <= j)
}

/// Whether no event is upcoming.
pub open spec fn none_upcoming(events: Seq<Event>, now: int, kind: Option<EventType>) -> bool {
    forall|j: int| 0 <= j < events.len() ==> !is_upcoming(#[trigger] events[j], now, kind)
}

/// Whether `e` has started before `now` and is a session on track.
pub open spec fn is_past_session(e: Event, now: int) -> bool {
    e.start_time < now && e.event_type != EventType::LiveryReveal
}

/// Whether the event at `i` is the last session that started: no other past
/// session started later, nor at the same time from an earlier row.
pub open spec fn is_latest_session(events: Seq<Event>, now: int, i: int) -> bool {
    &&& 0 <= i < events.len()
    &&& is_past_session(events[i], now)
    &&& forall|j: int|
        0 <= j < events.len() && is_past_session(#[trigger] events[j], now) ==> events[j].start_time
            < events[i].start_time || (events[j].start_time == events[i].start_time && i <= j)
}

fn copy_slug(slug: &Option<String>) -> (r: Option<String>)
    ensures
        r == *slug,
{
    match slug {
        Some(s) => Some(s.clone()),
        None => None,
    }
}

impl Store {
    /// The invariant of the store: slugs, paths and racing numbers are keys.
    pub open spec fn wf(&self) -> bool {
        &&& unique_slugs(self.events@)
        &&& unique_paths(self.results@)
        &&& unique_numbers(self.drivers@)
    }

    /// A store that holds nothing.
    pub fn new() -> (r: Store)
        ensures
            r.wf(),
            r.events@.len() == 0,
            r.results@.len() == 0,
            r.drivers@.len() == 0,
            r.channels@.len() == 0,
            r.alerts@.len() == 0,
            r.driver_standings is None,
            r.constructor_standings is None,
    {
        Store {
            events: Vec::new(),
            results: Vec::new(),
            drivers: Vec::new(),
            channels: Vec::new(),
            alerts: Vec::new(),
            driver_standings: None,
            constructor_standings: None,
        }
    }

    /// The row of the event kept under `slug`, if there is one.
    pub fn find_event(&self, slug: &str) -> (r: Option<usize>)
        ensures
            match r {
                Some(i) => i < self.events@.len() && self.events@[i as int]@.event_slug == Some(
                    slug@,
                ) && slug_row(event_views(self.events@), Some(slug@), 0) == i,
                None => !has_slug(self.events@, slug@) && slug_row(
                    event_views(self.events@),
                    Some(slug@),
                    0,
                ) == self.events@.len(),
            },
    {
        let mut i: usize = 0;
        while i < self.events.len()
            invariant
                i <= self.events@.len(),
                forall|j: int| 0 <= j < i ==> (#[trigger] self.events@[j])@.event_slug != Some(slug@),
                slug_row(event_views(self.events@), Some(slug@), 0) == slug_row(
                    event_views(self.events@),
                    Some(slug@),
                    i as int,
                ),
            decreases self.events@.len() - i,
        {
            let found: bool = match &self.events[i].event_slug {
                Some(kept) => str_eq(kept.as_str(), slug),
                None => false,
            };
            if found {
                return Some(i);
            }
            i += 1;
        }
        None
    }

    /// Enters an event under its slug. Where the slug is already kept, only
    /// the start time of that event changes; otherwise, and where the event
    /// has no slug, the event is added behind the others.
    pub fn upsert_event(
        &mut self,
        meeting_name: String,
        event_type: EventType,
        start_time: i64,
        event_slug: Option<String>,
    )
        requires
            old(self).wf(),
        ensures
            final(self).wf(),
            final(self).results == old(self).results,
            final(self).drivers == old(self).drivers,
            final(self).channels == old(self).channels,
            final(self).alerts == old(self).alerts,
            final(self).driver_standings == old(self).driver_standings,
            final(self).constructor_standings == old(self).constructor_standings,
            event_views(final(self).events@) == upserted(
                event_views(old(self).events@),
                EventView {
                    meeting_name: meeting_name@,
                    event_type,
                    start_time: start_time as int,
                    event_slug: slug_view(event_slug),
                },
            ),
            final(self).events@.len() == event_views(final(self).events@).len(),
            forall|i: int|
                0 <= i < final(self).events@.len() ==> (#[trigger] final(self).events@[i])@
                    == event_views(final(self).events@)[i],
    {
        let ghost entry = EventView {
            meeting_name: meeting_name@,
            event_type,
            start_time: start_time as int,
            event_slug: slug_view(event_slug),
        };
        let row: Option<usize> = match &event_slug {
            Some(slug) => self.find_event(slug.as_str()),
            None => None,
        };
        proof {
            upsert_keeps_schedule(event_views(self.events@), entry);
        }
        match row {
            Some(i) => {
                let updated = Event {
                    meeting_name: self.events[i].meeting_name.clone(),
                    event_type: self.events[i].event_type,
                    start_time,
                    event_slug: copy_slug(&self.events[i].event_slug),
                };
                self.events.set(i, updated);
            },
            None => {
                self.events.push(Event { meeting_name, event_type, start_time, event_slug });
            },
        }
        proof {
            assert(event_views(self.events@) =~= upserted(event_views(old(self).events@), entry));
        }
    }

    /// The row of the result kept under `path`, if there is one.
    pub fn find_result(&self, path: &str) -> (r: Option<usize>)
        ensures
            match r {
                Some(i) => i < self.results@.len() && self.results@[i as int].path@ == path@,
                None => !has_path(self.results@, path@),
            },
    {
        let mut i: usize = 0;
        while i < self.results.len()
            invariant
                i <= self.results@.len(),
                forall|j: int| 0 <= j < i ==> (#[trigger] self.results@[j]).path@ != path@,
            decreases self.results@.len() - i,
        {
            if str_eq(self.results[i].path.as_str(), path) {
                return Some(i);
            }
            i += 1;
        }
        None
    }

    /// The classification kept under `path`, if there is one.
    pub fn cached_result(&self, path: &str) -> (r: Option<&SessionResults>)
        ensures
            r is Some <==> has_path(self.results@, path@),
            r matches Some(data) ==> exists|i: int|
                0 <= i < self.results@.len() && (#[trigger] self.results@[i]).path@ == path@
                    && *data == self.results@[i].data,
    {
        match self.find_result(path) {
            Some(i) => Some(&self.results[i].data),
            None => None,
        }
    }

    /// Keeps a classification under `path` unless one is kept there already,
    /// and says whether it was added. What is kept is never replaced.
    pub fn insert_result(
        &mut self,
        path: String,
        data: SessionResults,
        event: Option<usize>,
        create_time: i64,
    ) -> (added: bool)
        requires
            old(self).wf(),
        ensures
            final(self).wf(),
            added == !has_path(old(self).results@, path@),
            has_path(final(self).results@, path@),
            final(self).events == old(self).events,
            final(self).drivers == old(self).drivers,
            final(self).channels == old(self).channels,
            final(self).alerts == old(self).alerts,
            final(self).driver_standings == old(self).driver_standings,
            final(self).constructor_standings == old(self).constructor_standings,
            added ==> final(self).results@ == old(self).results@.push(
                ResultRow { path, data, event, create_time },
            ),
            !added ==> final(self).results == old(self).results,
    {
        match self.find_result(path.as_str()) {
            Some(_) => false,
            None => {
                self.results.push(ResultRow { path, data, event, create_time });
                proof {
                    let n = old(self).results@.len() as int;
                    assert(self.results@[n].path@ == path@);
                    assert forall|a: int, b: int| 0 <= a < b < self.results@.len() implies (
                    #[trigger] self.results@[a]).path@ != (#[trigger] self.results@[b]).path@ by {
                        if b == n {
                            assert(old(self).results@[a].path@ != path@);
                        } else {
                            assert(old(self).results@[a].path@ != old(self).results@[b].path@);
                        }
                    }
                }
                true
            },
        }
    }

    /// The row of the next event after `now`, of the kind asked for if one was.
    pub fn next_event_index(&self, now: i64, event_type: Option<EventType>) -> (r: Option<usize>)
        ensures
            match r {
                Some(i) => is_next_event(self.events@, now as int, event_type, i as int),
                None => none_upcoming(self.events@, now as int, event_type),
            },
    {
        let mut best: Option<usize> = None;
        let mut i: usize = 0;
        while i < self.events.len()
            invariant
                i <= self.events@.len(),
                match best {
                    Some(b) => {
                        &&& b < i
                        &&& is_upcoming(self.events@[b as int], now as int, event_type)
                        &&& forall|j: int|
                            0 <= j < i && is_upcoming(
                                #[trigger] self.events@[j],
                                now as int,
                                event_type,
                            ) ==> self.events@[b as int].start_time < self.events@[j].start_time || (
                            self.events@[b as int].start_time == self.events@[j].start_time && b
                                <= j)
                    },
                    None => forall|j: int|
                        0 <= j < i ==> !is_upcoming(
                            #[trigger] self.events@[j],
                            now as int,
                            event_type,
                        ),
                },
            decreases self.events@.len() - i,
        {
            let e = &self.events[i];
            let wanted: bool = match event_type {
                Some(k) => e.event_type == k,
                None => true,
            };
            if e.start_time > now && wanted {
                match best {
                    Some(b) => {
                        if e.start_time < self.events[b].start_time {
                            best = Some(i);
                        }
                    },
                    None => {
                        best = Some(i);
                    },
                }
            }
            i += 1;
        }
        best
    }

    /// The row of the session on track that started last before `now`.
    pub fn latest_session_index(&self, now: i64) -> (r: Option<usize>)
        ensures
            match r {
                Some(i) => is_latest_session(self.events@, now as int, i as int),
                None => forall|j: int|
                    0 <= j < self.events@.len() ==> !is_past_session(
                        #[trigger] self.events@[j],
                        now as int,
                    ),
            },
    {
        let mut best: Option<usize> = None;
        let mut i: usize = 0;
        while i < self.events.len()
            invariant
                i <= self.events@.len(),
                match best {
                    Some(b) => {
                        &&& b < i
                        &&& is_past_session(self.events@[b as int], now as int)
                        &&& forall|j: int|
                            0 <= j < i && is_past_session(#[trigger] self.events@[j], now as int)
                                ==> self.events@[j].start_time < self.events@[b as int].start_time
                                || (self.events@[j].start_time == self.events@[b as int].start_time
                                && b <= j)
                    },
                    None => forall|j: int|
                        0 <= j < i ==> !is_past_session(#[trigger] self.events@[j], now as int),
                },
            decreases self.events@.len() - i,
        {
            let e = &self.events[i];
            let on_track: bool = match e.event_type {
                EventType::LiveryReveal => false,
                _ => true,
            };
            if e.start_time < now && on_track {
                match best {
                    Some(b) => {
                        if e.start_time > self.events[b].start_time {
                            best = Some(i);
                        }
                    },
                    None => {
                        best = Some(i);
                    },
                }
            }
            i += 1;
        }
        best
    }

    /// The row of the driver with racing number `number`, if there is one.
    pub fn find_driver(&self, number: i64) -> (r: Option<usize>)
        ensures
            match r {
                Some(i) => i < self.drivers@.len() && self.drivers@[i as int].racing_number
                    == number && driver_row(self.drivers@, number as int, 0) == i && forall|j: int|
                    0 <= j < i ==> (#[trigger] self.drivers@[j]).racing_number != number,
                None => !has_driver(self.drivers@, number as int) && driver_row(
                    self.drivers@,
                    number as int,
                    0,
                ) == self.drivers@.len(),
            },
    {
        let mut i: usize = 0;
        while i < self.drivers.len()
            invariant
                i <= self.drivers@.len(),
                forall|j: int| 0 <= j < i ==> (#[trigger] self.drivers@[j]).racing_number != number,
                driver_row(self.drivers@, number as int, 0) == driver_row(
                    self.drivers@,
                    number as int,
                    i as int,
                ),
            decreases self.drivers@.len() - i,
        {
            if self.drivers[i].racing_number == number {
                return Some(i);
            }
            i += 1;
        }
        None
    }

    /// Enters a driver under their racing number, in place of whoever was
    /// kept under that number before.
    pub fn upsert_driver(&mut self, driver: DriverRef)
        requires
            old(self).wf(),
        ensures
            final(self).wf(),
            final(self).events == old(self).events,
            final(self).results == old(self).results,
            final(self).channels == old(self).channels,
            final(self).alerts == old(self).alerts,
            final(self).driver_standings == old(self).driver_standings,
            final(self).constructor_standings == old(self).constructor_standings,
            final(self).drivers@ == driver_upserted(old(self).drivers@, driver),
    {
        match self.find_driver(driver.racing_number) {
            Some(i) => {
                self.drivers.set(i, driver);
                proof {
                    assert forall|a: int, b: int| 0 <= a < b < self.drivers@.len() implies (
                    #[trigger] self.drivers@[a]).racing_number != (
                    #[trigger] self.drivers@[b]).racing_number by {
                        assert(old(self).drivers@[a].racing_number != old(self).drivers@[b].racing_number);
                    }
                }
            },
            None => {
                self.drivers.push(driver);
                proof {
                    assert forall|a: int, b: int| 0 <= a < b < self.drivers@.len() implies (
                    #[trigger] self.drivers@[a]).racing_number != (
                    #[trigger] self.drivers@[b]).racing_number by {
                        if b == old(self).drivers@.len() {
                            assert(old(self).drivers@[a].racing_number != driver.racing_number);
                        } else {
                            assert(old(self).drivers@[a].racing_number != old(self).drivers@[b].racing_number);
                        }
                    }
                }
            },
        }
    }

    /// Whether an alert was marked for the event of that name and start.
    pub fn alert_sent(&self, name: &str, start_time: i64) -> (r: bool)
        ensures
            r == has_alert(self.alerts@, name@, start_time as int),
    {
        let mut i: usize = 0;
        while i < self.alerts.len()
            invariant
                i <= self.alerts@.len(),
                forall|j: int|
                    0 <= j < i ==> !((#[trigger] self.alerts@[j]).name@ == name@
                        && self.alerts@[j].start_time == start_time),
            decreases self.alerts@.len() - i,
        {
            if self.alerts[i].start_time == start_time && str_eq(self.alerts[i].name.as_str(), name) {
                return true;
            }
            i += 1;
        }
        false
    }
}

/// Whether the result of the session at `path` was delivered: a result is
/// kept under that path.
pub fn is_event_delivered(store: &Store, path: &str) -> (r: bool)
    ensures
        r == has_path(store.results@, path@),
{
    store.find_result(path).is_some()
}

/// The next event after `now`, of the kind asked for if one was: its meeting,
/// its kind and its start. Of two that start together the one entered first.
pub fn next_event_filtered(store: &Store, now: i64, event_type: Option<EventType>) -> (r: Option<
    (String, EventType, i64),
>)
    ensures
        match r {
            Some((name, kind, start)) => exists|i: int|
                #[trigger] is_next_event(store.events@, now as int, event_type, i)
                    && store.events@[i].meeting_name == name && store.events@[i].event_type == kind
                    && store.events@[i].start_time == start,
            None => none_upcoming(store.events@, now as int, event_type),
        },
{
    match store.next_event_index(now, event_type) {
        Some(i) => {
            let e = &store.events[i];
            Some((e.meeting_name.clone(), e.event_type, e.start_time))
        },
        None => None,
    }
}

/// The path of the result that was kept last.
pub fn get_latest_path(store: &Store) -> (r: Option<String>)
    ensures
        match r {
            Some(path) => store.results@.len() > 0 && path == store.results@.last().path,
            None => store.results@.len() == 0,
        },
{
    let n: usize = store.results.len();
    if n == 0 {
        None
    } else {
        Some(store.results[n - 1].path.clone())
    }
}

/// No slug is kept twice.
pub open spec fn views_unique(events: Seq<EventView>) -> bool {
    forall|i: int, j: int|
        0 <= i < j < events.len() && (#[trigger] events[i]).event_slug is Some ==> events[i].event_slug
            != (#[trigger] events[j]).event_slug
}

/// Whether an event is kept under `slug`.
pub open spec fn keeps_slug(events: Seq<EventView>, slug: Option<Seq<char>>) -> bool {
    slug_row(events, slug, 0) < events.len()
}

/// The row that the search for a slug gives holds the slug, and no row
/// before it does.
pub proof fn slug_row_finds_first(events: Seq<EventView>, slug: Option<Seq<char>>, from: int)
    requires
        0 <= from <= events.len(),
    ensures
        from <= slug_row(events, slug, from) <= events.len(),
        slug_row(events, slug, from) < events.len() ==> events[slug_row(
            events,
            slug,
            from,
        )].event_slug == slug,
        forall|j: int|
            from <= j < slug_row(events, slug, from) ==> (#[trigger] events[j]).event_slug != slug,
    decreases events.len() - from,
{
    if from < events.len() && events[from].event_slug != slug {
        slug_row_finds_first(events, slug, from + 1);
    }
}

/// The first row that holds a slug is the row that the search gives.
pub proof fn first_row_is_found(events: Seq<EventView>, slug: Option<Seq<char>>, row: int, from: int)
    requires
        0 <= from <= row <= events.len(),
        row < events.len() ==> events[row].event_slug == slug,
        forall|j: int| from <= j < row ==> (#[trigger] events[j]).event_slug != slug,
    ensures
        slug_row(events, slug, from) == row,
    decreases row - from,
{
    if from < row {
        first_row_is_found(events, slug, row, from + 1);
    }
}

/// What entering an event does to a schedule in which slugs are keys: slugs
/// stay keys, no row moves or changes its slug, the slug of the event is
/// kept with the start of the event, and the rows of other slugs stay as
/// they are. Only an event without a slug, or with one that was not kept,
/// adds a row.
pub proof fn upsert_keeps_schedule(events: Seq<EventView>, entry: EventView)
    requires
        views_unique(events),
    ensures
        views_unique(upserted(events, entry)),
        upserted(events, entry).len() == events.len() + (if entry.event_slug is Some && keeps_slug(
            events,
            entry.event_slug,
        ) {
            0int
        } else {
            1int
        }),
        keeps_slug(upserted(events, entry), entry.event_slug),
        entry.event_slug is Some ==> upserted(events, entry)[slug_row(
            upserted(events, entry),
            entry.event_slug,
            0,
        )].start_time == entry.start_time,
        forall|i: int|
            0 <= i < events.len() ==> (#[trigger] upserted(events, entry)[i]).event_slug
                == events[i].event_slug,
        forall|slug: Option<Seq<char>>| #[trigger]
            keeps_slug(events, slug) ==> keeps_slug(upserted(events, entry), slug) && slug_row(
                upserted(events, entry),
                slug,
                0,
            ) == slug_row(events, slug, 0) && (slug != entry.event_slug ==> upserted(
                events,
                entry,
            )[slug_row(events, slug, 0)] == events[slug_row(events, slug, 0)]),
{
    let after = upserted(events, entry);
    let row = slug_row(events, entry.event_slug, 0);
    slug_row_finds_first(events, entry.event_slug, 0);
    assert forall|i: int| 0 <= i < events.len() implies (#[trigger] after[i]).event_slug
        == events[i].event_slug by {}
    assert(views_unique(after)) by {
        assert forall|i: int, j: int|
            0 <= i < j < after.len() && (#[trigger] after[i]).event_slug is Some implies after[i].event_slug
            != (#[trigger] after[j]).event_slug by {
            if j < events.len() {
                assert(events[i].event_slug != events[j].event_slug);
            } else {
                assert(events[i].event_slug != entry.event_slug);
            }
        }
    }
    if entry.event_slug is Some {
        first_row_is_found(after, entry.event_slug, row, 0);
    } else {
        slug_row_finds_first(after, entry.event_slug, 0);
        if slug_row(after, entry.event_slug, 0) == after.len() {
            assert(after[events.len() as int].event_slug == entry.event_slug);
        }
    }
    assert forall|slug: Option<Seq<char>>| #[trigger] keeps_slug(events, slug) implies keeps_slug(
        after,
        slug,
    ) && slug_row(after, slug, 0) == slug_row(events, slug, 0) && (slug != entry.event_slug
        ==> after[slug_row(events, slug, 0)] == events[slug_row(events, slug, 0)]) by {
        slug_row_finds_first(events, slug, 0);
        first_row_is_found(after, slug, slug_row(events, slug, 0), 0);
    }
}

/// Entering an event twice under one slug leaves one event under that slug,
/// with the start that was entered last.
pub proof fn event_is_entered_once(events: Seq<EventView>, first: EventView, second: EventView)
    requires
        views_unique(events),
        first.event_slug is Some,
        first.event_slug == second.event_slug,
    ensures
        ({
            let once = upserted(events, first);
            let twice = upserted(once, second);
            let row = slug_row(twice, second.event_slug, 0);
            &&& views_unique(twice)
            &&& twice.len() == once.len()
            &&& 0 <= row < twice.len()
            &&& twice[row].event_slug == second.event_slug
            &&& twice[row].start_time == second.start_time
            &&& forall|j: int|
                0 <= j < twice.len() && j != row ==> (#[trigger] twice[j]).event_slug
                    != second.event_slug
        }),
{
    let once = upserted(events, first);
    let twice = upserted(once, second);
    let row = slug_row(twice, second.event_slug, 0);
    upsert_keeps_schedule(events, first);
    upsert_keeps_schedule(once, second);
    slug_row_finds_first(twice, second.event_slug, 0);
    assert forall|j: int| 0 <= j < twice.len() && j != row implies (#[trigger] twice[j]).event_slug
        != second.event_slug by {
        if j < row {
            assert(twice[j].event_slug != twice[row].event_slug);
        } else {
            assert(twice[row].event_slug != twice[j].event_slug);
        }
    }
}

} // verus!
