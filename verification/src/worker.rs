//! The jobs of a tick: delivering the classification of a finished session
//! once, and alerting before a session starts.
use vstd::prelude::*;
use crate::database::{has_path, none_upcoming, path_count, ResultRow, Store, unique_paths};
use crate::fetch::{FetchError, is_join_of, is_recorded, record_results, results_text, text_view, TimingLine};
use crate::irc::{broadcast, is_broadcast, Outgoing};
use crate::models::EventTracker;
use crate::next_event::{fetch_next_event, is_alert_check};

verus! {

/// The jobs that a tick puts in the queue.
#[derive(Debug, Clone, Copy, PartialEq, Eq, Structural)]
pub enum JobType {
    Result,
    Alert,
    Wcc,
    Wdc,
}

/// The feed that a job starts from.
#[derive(Debug, Clone, Copy, PartialEq, Eq, Structural)]
pub enum Feed {
    SessionInfo,
    EventTracker,
    DriverStandings,
    ConstructorStandings,
}

/// The feed that a job has to fetch before it can do its work.
pub fn process_job(job_type: JobType) -> (r: Feed)
    ensures
        r == (match job_type {
            JobType::Result => Feed::SessionInfo,
            JobType::Alert => Feed::EventTracker,
            JobType::Wdc => Feed::DriverStandings,
            JobType::Wcc => Feed::ConstructorStandings,
        }),
{
    match job_type {
        JobType::Result => Feed::SessionInfo,
        JobType::Alert => Feed::EventTracker,
        JobType::Wdc => Feed::DriverStandings,
        JobType::Wcc => Feed::ConstructorStandings,
    }
}

/// Whether the classification of the session at `path` is due for delivery:
/// the session is complete and no result is kept under its path.
pub fn result_worker(store: &Store, path: &str, completed: bool) -> (due: bool)
    ensures
        due == (completed && !has_path(store.results@, path@)),
{
    completed && store.find_result(path).is_none()
}

/// Whether `after` and `outcome` are what the delivery of the session at
/// `path` leaves of `before`. Where a result is kept under the path nothing
/// is sent and nothing changes. Otherwise the classification is kept and
/// goes to every channel, or, where the lines cannot be joined, nothing is
/// sent and nothing is kept.
pub open spec fn is_delivery(
    before: Store,
    after: Store,
    path: Seq<char>,
    title: Seq<char>,
    lines: Seq<TimingLine>,
    now: int,
    outcome: Result<Vec<Outgoing>, FetchError>,
) -> bool {
    if has_path(before.results@, path) {
        outcome matches Ok(sent) && sent@.len() == 0 && after.results == before.results
    } else {
        match outcome {
            Ok(sent) => is_recorded(before, after, path, title, lines, now) && is_broadcast(
                before.channels@,
                results_text(title, after.results@.last().data.standings@),
                sent@,
            ),
            Err(e) => is_join_of(lines, before.drivers@, Err(e)) && after.results == before.results,
        }
    }
}

/// Delivers the classification of the session at `path`: keeps it and gives
/// the messages that bring it to every channel, unless it was kept before.
pub fn deliver_results(
    store: &mut Store,
    path: &str,
    title: String,
    lines: &Vec<TimingLine>,
    now: i64,
) -> (r: Result<Vec<Outgoing>, FetchError>)
    requires
        old(store).wf(),
    ensures
        final(store).wf(),
        final(store).events == old(store).events,
        final(store).drivers == old(store).drivers,
        final(store).channels == old(store).channels,
        final(store).alerts == old(store).alerts,
        final(store).driver_standings == old(store).driver_standings,
        final(store).constructor_standings == old(store).constructor_standings,
        is_delivery(*old(store), *final(store), path@, title@, lines@, now as int, r),
{
    match record_results(store, path, title, lines, now) {
        Ok(Some(text)) => Ok(broadcast(text.as_str(), store)),
        Ok(None) => Ok(Vec::new()),
        Err(e) => Err(e),
    }
}

/// Where a result is counted under a path, one is kept there.
pub proof fn counted_path_is_kept(results: Seq<ResultRow>, path: Seq<char>)
    requires
        path_count(results, path) > 0,
    ensures
        has_path(results, path),
    decreases results.len(),
{
    if results.last().path@ == path {
        assert(results[results.len() - 1].path@ == path);
    } else {
        counted_path_is_kept(results.drop_last(), path);
        let i = choose|i: int|
            0 <= i < results.drop_last().len() && (#[trigger] results.drop_last()[i]).path@ == path;
        assert(results[i].path@ == path);
    }
}

/// Where paths are keys, no path is kept more than once.
pub proof fn path_kept_at_most_once(results: Seq<ResultRow>, path: Seq<char>)
    requires
        unique_paths(results),
    ensures
        path_count(results, path) <= 1,
        has_path(results, path) ==> path_count(results, path) == 1,
    decreases results.len(),
{
    if results.len() > 0 {
        let front = results.drop_last();
        assert(unique_paths(front)) by {
            assert forall|i: int, j: int| 0 <= i < j < front.len() implies (#[trigger] front[i]).path@
                != (#[trigger] front[j]).path@ by {
                assert(results[i].path@ != results[j].path@);
            }
        }
        path_kept_at_most_once(front, path);
        if results.last().path@ == path {
            if path_count(front, path) > 0 {
                counted_path_is_kept(front, path);
                let i = choose|i: int| 0 <= i < front.len() && (#[trigger] front[i]).path@ == path;
                assert(results[i].path@ != results[results.len() - 1].path@);
            }
        } else if has_path(results, path) {
            let i = choose|i: int| 0 <= i < results.len() && (#[trigger] results[i]).path@ == path;
            assert(front[i].path@ == path);
        }
    }
}

/// Delivering the same finished session twice in a row sends its result at
/// most once and keeps at most one result under its path: once a delivery
/// has succeeded, the next sends nothing and changes nothing.
pub proof fn result_is_delivered_once(
    before: Store,
    between: Store,
    after: Store,
    path: Seq<char>,
    first_title: Seq<char>,
    first_lines: Seq<TimingLine>,
    first_tick: int,
    first: Result<Vec<Outgoing>, FetchError>,
    second_title: Seq<char>,
    second_lines: Seq<TimingLine>,
    second_tick: int,
    second: Result<Vec<Outgoing>, FetchError>,
)
    requires
        before.wf(),
        between.wf(),
        after.wf(),
        is_delivery(before, between, path, first_title, first_lines, first_tick, first),
        is_delivery(between, after, path, second_title, second_lines, second_tick, second),
    ensures
        first is Ok ==> (second matches Ok(sent) && sent@.len() == 0 && after.results
            == between.results),
        path_count(after.results@, path) <= 1,
        first is Ok || second is Ok ==> path_count(after.results@, path) == 1,
{
    path_kept_at_most_once(after.results@, path);
    if first is Ok && !has_path(before.results@, path) {
        assert(between.results@[between.results@.len() - 1].path@ == path);
    }
    if second is Ok && !has_path(between.results@, path) {
        assert(after.results@[after.results@.len() - 1].path@ == path);
    }
}

/// What the alert job asks of the transport and of the calendar.
#[derive(Debug, Clone, PartialEq, Eq)]
pub struct AlertOutcome {
    /// The alert, once for every channel, if one is due.
    pub messages: Vec<Outgoing>,
    /// Whether the schedule holds no event to come and has to be refreshed.
    pub refresh_calendar: bool,
}

/// The alert job: the alert for the next event goes to every channel where
/// it is due and has not gone out before, and a schedule without any event
/// to come asks for a refresh of the calendar.
pub fn alert_worker(store: &mut Store, tracker: &EventTracker, now: i64) -> (r: AlertOutcome)
    requires
        old(store).wf(),
    ensures
        final(store).wf(),
        final(store).events == old(store).events,
        final(store).results == old(store).results,
        final(store).drivers == old(store).drivers,
        final(store).channels == old(store).channels,
        final(store).driver_standings == old(store).driver_standings,
        final(store).constructor_standings == old(store).constructor_standings,
        r.refresh_calendar == none_upcoming(old(store).events@, now as int, None),
        exists|alert: Option<Seq<char>>| #[trigger]
            is_alert_check(*old(store), final(store).alerts@, *tracker, now as int, alert) && (
            match alert {
                Some(text) => is_broadcast(old(store).channels@, text, r.messages@),
                None => r.messages@.len() == 0,
            }),
{
    let refresh_calendar: bool = store.next_event_index(now, None).is_none();
    let alert = fetch_next_event(store, tracker, now);
    let messages = match &alert {
        Some(text) => broadcast(text.as_str(), store),
        None => Vec::new(),
    };
    proof {
        assert(is_alert_check(
            *old(store),
            final(store).alerts@,
            *tracker,
            now as int,
            text_view(alert),
        ));
    }
    AlertOutcome { messages, refresh_calendar }
}

} // verus!
