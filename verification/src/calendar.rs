//! The season calendar: which events a calendar asks for, and entering them
//! into the schedule.
use vstd::prelude::*;
use vstd::string::*;
use crate::clock::{calendar_timestamp, parse_calendar_datetime};
use crate::database::{event_type_of_token, event_views, EventType, EventView, keeps_slug, slug_row, Store, upsert_keeps_schedule, upserted, views_unique};
use crate::models::{CalendarEvents, CalendarRace, session_entries, entries_view};
use crate::text::{chars_of, push_signed_decimal, signed_decimal, to_uppercase, uppercase_of};

verus! {

/// The ending of a date that is written with milliseconds.
pub open spec fn millis_mark() -> Seq<char> {
    seq!['.', '0', '0', '0', 'Z']
}

/// Whether the text holds the ending of a date with milliseconds somewhere.
pub open spec fn has_millis(s: Seq<char>) -> bool {
    exists|i: int| 0 <= i && i + 5 <= s.len() && #[trigger] s.subrange(i, i + 5) == millis_mark()
}

/// The text with every `Z` written out as `.000Z`.
pub open spec fn with_millis(s: Seq<char>) -> Seq<char>
    decreases s.len(),
{
    if s.len() == 0 {
        Seq::empty()
    } else {
        with_millis(s.drop_last()) + (if s.last() == 'Z' {
            millis_mark()
        } else {
            seq![s.last()]
        })
    }
}

/// A calendar date brought to the form with milliseconds: a date that ends
/// in `Z` and holds no `.000Z` gets them; any other text stays as it is.
pub open spec fn normalized_datetime(s: Seq<char>) -> Seq<char> {
    if s.len() > 0 && s.last() == 'Z' && !has_millis(s) {
        with_millis(s)
    } else {
        s
    }
}

fn contains_millis(v: &Vec<char>) -> (r: bool)
    ensures
        r == has_millis(v@),
{
    let n: usize = v.len();
    if n < 5 {
        return false;
    }
    let mut i: usize = 0;
    while i <= n - 5
        invariant
            n == v@.len(),
            n >= 5,
            i <= n - 4,
            forall|j: int| 0 <= j < i ==> #[trigger] v@.subrange(j, j + 5) != millis_mark(),
        decreases n - 4 - i,
    {
        let ghost part = v@.subrange(i as int, i + 5);
        proof {
            assert(part[0] == v@[i as int] && part[1] == v@[i + 1] && part[2] == v@[i + 2] && part[3]
                == v@[i + 3] && part[4] == v@[i + 4]);
        }
        if v[i] == '.' && v[i + 1] == '0' && v[i + 2] == '0' && v[i + 3] == '0' && v[i + 4] == 'Z' {
            proof {
                assert(part =~= millis_mark());
            }
            return true;
        }
        proof {
            let mark = millis_mark();
            assert(mark[0] == '.' && mark[1] == '0' && mark[2] == '0' && mark[3] == '0' && mark[4]
                == 'Z');
        }
        i += 1;
    }
    false
}

/// Brings a calendar date to the form with milliseconds.
pub fn normalize_datetime(text: &str) -> (r: String)
    ensures
        r@ == normalized_datetime(text@),
{
    let v = chars_of(text);
    let n: usize = v.len();
    if n == 0 || v[n - 1] != 'Z' || contains_millis(&v) {
        return String::from_str(text);
    }
    let mut out = String::new();
    let mut i: usize = 0;
    while i < n
        invariant
            i <= n,
            n == v@.len(),
            out@ == with_millis(v@.take(i as int)),
        decreases n - i,
    {
        let ghost before = out@;
        if v[i] == 'Z' {
            out.append(".000Z");
            proof {
                reveal_strlit(".000Z");
                assert(".000Z"@ =~= millis_mark());
            }
        } else {
            out.push(v[i]);
        }
        proof {
            assert(v@.take(i + 1).drop_last() =~= v@.take(i as int));
            assert(v@.take(i + 1).last() == v@[i as int]);
            assert(out@ =~= with_millis(v@.take(i + 1)));
        }
        i += 1;
    }
    proof {
        assert(v@.take(n as int) =~= v@);
    }
    out
}

/// The name under which a session of a race weekend is scheduled.
pub open spec fn meeting_title(kind: EventType, race_name: Seq<char>, year: int) -> Seq<char> {
    kind.spec_emoji() + " FORMULA 1 "@ + uppercase_of(race_name) + " GRAND PRIX "@ + signed_decimal(
        year,
    )
}

/// The slug under which a session of a race weekend is kept: the year, the
/// slug of the race and the key of the session.
pub open spec fn slug_text(year: int, race_slug: Seq<char>, key: Seq<char>) -> Seq<char> {
    signed_decimal(year) + seq!['-'] + race_slug + seq!['-'] + key
}

/// The event that a session of a race weekend asks for, if its key names a
/// kind of session and its date can be read.
pub open spec fn planned_event(race: CalendarRace, year: int, key: Seq<char>, date: Seq<char>) -> Option<
    EventView,
> {
    match (event_type_of_token(key), calendar_timestamp(normalized_datetime(date))) {
        (Some(kind), Some(start)) => Some(
            EventView {
                meeting_name: meeting_title(kind, race.name@, year),
                event_type: kind,
                start_time: start,
                event_slug: Some(slug_text(year, race.slug@, key)),
            },
        ),
        _ => None,
    }
}

/// The events that the first `n` sessions of a race weekend ask for.
pub open spec fn race_plan(race: CalendarRace, year: int, n: int) -> Seq<EventView>
    decreases n,
{
    if n <= 0 {
        Seq::empty()
    } else {
        let session = session_entries(race.sessions)[n - 1];
        race_plan(race, year, n - 1) + (match planned_event(race, year, session.0, session.1) {
            Some(e) => seq![e],
            None => Seq::empty(),
        })
    }
}

/// The events that the first `n` races of a calendar ask for, in their order.
pub open spec fn calendar_plan(races: Seq<CalendarRace>, year: int, n: int) -> Seq<EventView>
    decreases n,
{
    if n <= 0 {
        Seq::empty()
    } else {
        calendar_plan(races, year, n - 1) + race_plan(
            races[n - 1],
            year,
            session_entries(races[n - 1].sessions).len() as int,
        )
    }
}

/// The schedule after the events of `plan` are entered one after the other.
pub open spec fn refreshed(events: Seq<EventView>, plan: Seq<EventView>) -> Seq<EventView>
    decreases plan.len(),
{
    if plan.len() == 0 {
        events
    } else {
        upserted(refreshed(events, plan.drop_last()), plan.last())
    }
}

/// Enters every session of the calendar into the schedule under its slug.
/// A session whose date cannot be read is passed over.
pub fn refresh_current_calendar(store: &mut Store, calendar: &CalendarEvents, year: i32)
    requires
        old(store).wf(),
    ensures
        final(store).wf(),
        final(store).results == old(store).results,
        final(store).drivers == old(store).drivers,
        final(store).channels == old(store).channels,
        final(store).alerts == old(store).alerts,
        final(store).driver_standings == old(store).driver_standings,
        final(store).constructor_standings == old(store).constructor_standings,
        event_views(final(store).events@) == refreshed(
            event_views(old(store).events@),
            calendar_plan(calendar.races@, year as int, calendar.races@.len() as int),
        ),
{
    let mut r: usize = 0;
    while r < calendar.races.len()
        invariant
            r <= calendar.races@.len(),
            store.wf(),
            store.results == old(store).results,
            store.drivers == old(store).drivers,
            store.channels == old(store).channels,
            store.alerts == old(store).alerts,
            store.driver_standings == old(store).driver_standings,
            store.constructor_standings == old(store).constructor_standings,
            event_views(store.events@) == refreshed(
                event_views(old(store).events@),
                calendar_plan(calendar.races@, year as int, r as int),
            ),
        decreases calendar.races@.len() - r,
    {
        let race = &calendar.races[r];
        let fields = race.sessions.iter();
        let ghost done = calendar_plan(calendar.races@, year as int, r as int);
        let ghost sessions = session_entries(race.sessions);
        proof {
            assert(entries_view(fields@).len() == fields@.len());
            assert(done + race_plan(*race, year as int, 0) =~= done);
        }
        let mut n: usize = 0;
        while n < fields.len()
            invariant
                n <= fields@.len(),
                r < calendar.races@.len(),
                race == &calendar.races@[r as int],
                entries_view(fields@) == sessions,
                sessions == session_entries(race.sessions),
                fields@.len() == sessions.len(),
                done == calendar_plan(calendar.races@, year as int, r as int),
                store.wf(),
                store.results == old(store).results,
                store.drivers == old(store).drivers,
                store.channels == old(store).channels,
                store.alerts == old(store).alerts,
                store.driver_standings == old(store).driver_standings,
                store.constructor_standings == old(store).constructor_standings,
                event_views(store.events@) == refreshed(
                    event_views(old(store).events@),
                    done + race_plan(*race, year as int, n as int),
                ),
            decreases fields@.len() - n,
        {
            let key: &str = fields[n].0;
            let date: &str = fields[n].1.as_str();
            proof {
                assert(entries_view(fields@)[n as int] == (key@, date@));
            }
            let ghost so_far = done + race_plan(*race, year as int, n as int);
            let mut entered: bool = false;
            if let Some(kind) = EventType::from_str(key) {
                let normal = normalize_datetime(date);
                if let Some(start) = parse_calendar_datetime(normal.as_str()) {
                    let mut meeting_name = String::from_str(kind.to_emoji());
                    meeting_name.append(" FORMULA 1 ");
                    let upper = to_uppercase(race.name.as_str());
                    meeting_name.append(upper.as_str());
                    meeting_name.append(" GRAND PRIX ");
                    push_signed_decimal(&mut meeting_name, year as i64);
                    let mut slug = String::new();
                    push_signed_decimal(&mut slug, year as i64);
                    slug.push('-');
                    slug.append(race.slug.as_str());
                    slug.push('-');
                    slug.append(key);
                    proof {
                        assert(meeting_name@ =~= meeting_title(kind, race.name@, year as int));
                        assert(slug@ =~= slug_text(year as int, race.slug@, key@));
                        let e = planned_event(*race, year as int, key@, date@)->0;
                        assert(so_far.push(e) =~= done + race_plan(*race, year as int, n + 1));
                        assert(so_far.push(e).drop_last() =~= so_far);
                    }
                    store.upsert_event(meeting_name, kind, start, Some(slug));
                    entered = true;
                }
            }
            proof {
                if !entered {
                    assert(so_far =~= done + race_plan(*race, year as int, n + 1));
                }
            }
            n += 1;
        }
        proof {
            assert(done + race_plan(*race, year as int, fields@.len() as int) =~= calendar_plan(
                calendar.races@,
                year as int,
                r + 1,
            ));
        }
        r += 1;
    }
}

/// A refresh keeps slugs as keys, drops no slug, and leaves every slug of
/// the plan kept.
pub proof fn refresh_keeps_schedule(events: Seq<EventView>, plan: Seq<EventView>)
    requires
        views_unique(events),
    ensures
        views_unique(refreshed(events, plan)),
        forall|slug: Option<Seq<char>>| #[trigger]
            keeps_slug(events, slug) ==> keeps_slug(refreshed(events, plan), slug),
        forall|k: int|
            0 <= k < plan.len() ==> keeps_slug(
                refreshed(events, plan),
                (#[trigger] plan[k]).event_slug,
            ),
    decreases plan.len(),
{
    if plan.len() > 0 {
        let front = plan.drop_last();
        let before = refreshed(events, front);
        refresh_keeps_schedule(events, front);
        upsert_keeps_schedule(before, plan.last());
        assert forall|slug: Option<Seq<char>>| #[trigger] keeps_slug(events, slug) implies keeps_slug(
            refreshed(events, plan),
            slug,
        ) by {
            assert(keeps_slug(before, slug));
        }
        assert forall|k: int| 0 <= k < plan.len() implies keeps_slug(
            refreshed(events, plan),
            (#[trigger] plan[k]).event_slug,
        ) by {
            if k < front.len() {
                assert(front[k] == plan[k]);
                assert(keeps_slug(before, front[k].event_slug));
            }
        }
    }
}

/// A refresh whose slugs are all kept already adds no event.
pub proof fn refresh_of_kept_slugs_adds_nothing(events: Seq<EventView>, plan: Seq<EventView>)
    requires
        views_unique(events),
        forall|k: int|
            0 <= k < plan.len() ==> (#[trigger] plan[k]).event_slug is Some && keeps_slug(
                events,
                plan[k].event_slug,
            ),
    ensures
        refreshed(events, plan).len() == events.len(),
    decreases plan.len(),
{
    if plan.len() > 0 {
        let front = plan.drop_last();
        let before = refreshed(events, front);
        assert forall|k: int| 0 <= k < front.len() implies (#[trigger] front[k]).event_slug is Some
            && keeps_slug(events, front[k].event_slug) by {
            assert(front[k] == plan[k]);
        }
        refresh_of_kept_slugs_adds_nothing(events, front);
        refresh_keeps_schedule(events, front);
        assert(keeps_slug(events, plan[plan.len() - 1].event_slug));
        assert(keeps_slug(before, plan.last().event_slug));
        upsert_keeps_schedule(before, plan.last());
    }
}

/// After a refresh, the event kept under a slug of the plan starts when the
/// last entry of the plan under that slug says.
pub proof fn refresh_takes_the_latest_start(events: Seq<EventView>, plan: Seq<EventView>, k: int)
    requires
        views_unique(events),
        0 <= k < plan.len(),
        plan[k].event_slug is Some,
        forall|j: int| k < j < plan.len() ==> (#[trigger] plan[j]).event_slug != plan[k].event_slug,
    ensures
        keeps_slug(refreshed(events, plan), plan[k].event_slug),
        refreshed(events, plan)[slug_row(
            refreshed(events, plan),
            plan[k].event_slug,
            0,
        )].start_time == plan[k].start_time,
    decreases plan.len(),
{
    let front = plan.drop_last();
    let before = refreshed(events, front);
    refresh_keeps_schedule(events, front);
    upsert_keeps_schedule(before, plan.last());
    if k < plan.len() - 1 {
        assert(front[k] == plan[k]);
        assert forall|j: int| k < j < front.len() implies (#[trigger] front[j]).event_slug
            != front[k].event_slug by {
            assert(front[j] == plan[j]);
        }
        refresh_takes_the_latest_start(events, front, k);
        assert(plan[plan.len() - 1].event_slug != plan[k].event_slug);
        assert(keeps_slug(before, plan[k].event_slug));
    }
}

/// Refreshing the calendar twice from the same plan leaves one event under
/// every slug, adds no event the second time, and leaves each event of the
/// plan with the start that the plan says last.
pub proof fn refresh_twice_is_refresh_once(events: Seq<EventView>, plan: Seq<EventView>, k: int)
    requires
        views_unique(events),
        forall|j: int| 0 <= j < plan.len() ==> (#[trigger] plan[j]).event_slug is Some,
        0 <= k < plan.len(),
        forall|j: int| k < j < plan.len() ==> (#[trigger] plan[j]).event_slug != plan[k].event_slug,
    ensures
        ({
            let once = refreshed(events, plan);
            let twice = refreshed(once, plan);
            &&& views_unique(twice)
            &&& twice.len() == once.len()
            &&& keeps_slug(twice, plan[k].event_slug)
            &&& twice[slug_row(twice, plan[k].event_slug, 0)].start_time == plan[k].start_time
        }),
{
    let once = refreshed(events, plan);
    refresh_keeps_schedule(events, plan);
    refresh_keeps_schedule(once, plan);
    refresh_of_kept_slugs_adds_nothing(once, plan);
    refresh_takes_the_latest_start(once, plan, k);
}

} // verus!
