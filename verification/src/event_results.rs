//! Results from the flat feed, in which every driver row names its driver.
use vstd::prelude::*;
use vstd::string::*;
use crate::clock::{parse_session_end, session_end_timestamp};
use crate::database::{has_path, is_latest_session, is_past_session, Store};
use crate::fetch::{format_results, FetchError, position_of, results_text};
use crate::models::{Dr4, F1APIDriverStanding, SessionInfo, SessionResults, SPFeed};
use crate::text::{chars_of, parse_int_in, str_eq};

verus! {

/// Whether `row` is what a driver row of the flat feed says.
pub open spec fn is_flat_row(dr: Dr4, row: F1APIDriverStanding) -> bool {
    &&& position_of(dr.f.position@) == Some(row.position as int)
    &&& row.driver_name == dr.f.driver_name
    &&& row.team_name == dr.f.team_name
    &&& row.time == dr.f.time
    &&& row.difference == Some(dr.f.difference)
}

/// Whether `outcome` is the classification that the flat feed holds: every
/// row in the order of the feed, or the error of the first row whose
/// position cannot be read.
pub open spec fn is_flat_table(rows: Seq<Dr4>, outcome: Result<Vec<F1APIDriverStanding>, FetchError>) -> bool {
    match outcome {
        Ok(table) => table@.len() == rows.len() && forall|k: int|
            0 <= k < rows.len() ==> is_flat_row(rows[k], #[trigger] table@[k]),
        Err(e) => exists|k: int|
            0 <= k < rows.len() && position_of((#[trigger] rows[k]).f.position@) is None && e
                == FetchError::InvalidPosition(rows[k].f.position) && forall|j: int|
                0 <= j < k ==> position_of((#[trigger] rows[j]).f.position@) is Some,
    }
}

/// The title of a flat feed: the name of the race, then that of the session.
pub open spec fn flat_title(feed: SPFeed) -> Seq<char> {
    feed.free.data.r@ + ": "@ + feed.free.data.s@
}

/// The classification that the flat feed holds.
pub fn flat_standings(feed: &SPFeed) -> (r: Result<Vec<F1APIDriverStanding>, FetchError>)
    ensures
        is_flat_table(feed.free.data.dr@, r),
{
    let rows = &feed.free.data.dr;
    let mut table: Vec<F1APIDriverStanding> = Vec::new();
    let mut k: usize = 0;
    while k < rows.len()
        invariant
            k <= rows@.len(),
            table@.len() == k,
            rows@ == feed.free.data.dr@,
            forall|j: int| 0 <= j < k ==> is_flat_row(rows@[j], #[trigger] table@[j]),
            forall|j: int| 0 <= j < k ==> position_of((#[trigger] rows@[j]).f.position@) is Some,
        decreases rows@.len() - k,
    {
        let f = &rows[k].f;
        let place = chars_of(f.position.as_str());
        proof {
            assert(place@.subrange(0, place@.len() as int) =~= f.position@);
        }
        let position: i8 = match parse_int_in(&place, 0, place.len(), -128, 127) {
            Some(p) => p as i8,
            None => {
                proof {
                    assert(position_of(rows@[k as int].f.position@) is None);
                }
                return Err(FetchError::InvalidPosition(f.position.clone()));
            },
        };
        table.push(
            F1APIDriverStanding {
                position,
                driver_name: f.driver_name.clone(),
                team_name: f.team_name.clone(),
                time: f.time.clone(),
                difference: Some(f.difference.clone()),
            },
        );
        k += 1;
    }
    Ok(table)
}

/// The delivery message of the classification that the flat feed holds.
pub fn driver_standings(feed: &SPFeed) -> (r: Result<String, FetchError>)
    ensures
        match r {
            Ok(text) => exists|table: Vec<F1APIDriverStanding>| #[trigger]
                is_flat_table(feed.free.data.dr@, Ok(table)) && text@ == results_text(
                    flat_title(*feed),
                    table@,
                ),
            Err(e) => is_flat_table(feed.free.data.dr@, Err(e)),
        },
{
    let standings = match flat_standings(feed) {
        Ok(table) => table,
        Err(e) => {
            return Err(e);
        },
    };
    let mut title = feed.free.data.r.clone();
    title.append(": ");
    title.append(feed.free.data.s.as_str());
    let ghost table = standings;
    let results = SessionResults { title, standings };
    let text = format_results(&results);
    proof {
        assert(is_flat_table(feed.free.data.dr@, Ok(table)));
    }
    Ok(text)
}

/// Whether the session that the timing service reports is due for delivery
/// from the flat feed: it is complete, no result is kept under its path, its
/// end can be read and every position of the feed can be read.
pub open spec fn flat_result_is_due(store: Store, session: SessionInfo, feed: SPFeed) -> bool {
    &&& session.archive_status.status@ == "Complete"@
    &&& !has_path(store.results@, session.path@)
    &&& session_end_timestamp(session.end_date@, session.gmt_offset@) is Some
    &&& forall|k: int|
        0 <= k < feed.free.data.dr@.len() ==> position_of(
            (#[trigger] feed.free.data.dr@[k]).f.position@,
        ) is Some
}

/// The result check on the flat feed: where the session is due, its
/// classification is kept under its path and the delivery message is given;
/// otherwise nothing changes and there is no message.
pub fn read_result(store: &mut Store, session: &SessionInfo, feed: &SPFeed, now: i64) -> (r: Option<
    String,
>)
    requires
        old(store).wf(),
    ensures
        final(store).wf(),
        final(store).events == old(store).events,
        final(store).drivers == old(store).drivers,
        final(store).channels == old(store).channels,
        final(store).alerts == old(store).alerts,
        final(store).driver_standings == old(store).driver_standings,
        final(store).constructor_standings == old(store).constructor_standings,
        r is Some <==> flat_result_is_due(*old(store), *session, *feed),
        r is None ==> final(store).results == old(store).results,
        r matches Some(text) ==> {
            let kept = final(store).results@.last();
            &&& final(store).results@.len() == old(store).results@.len() + 1
            &&& final(store).results@.drop_last() == old(store).results@
            &&& kept.path@ == session.path@
            &&& kept.data.title@ == flat_title(*feed)
            &&& is_flat_table(feed.free.data.dr@, Ok(kept.data.standings))
            &&& text@ == results_text(flat_title(*feed), kept.data.standings@)
            &&& kept.create_time == now
            &&& match kept.event {
                Some(i) => is_latest_session(old(store).events@, now as int, i as int),
                None => forall|j: int|
                    0 <= j < old(store).events@.len() ==> !is_past_session(
                        #[trigger] old(store).events@[j],
                        now as int,
                    ),
            }
        },
{
    if !str_eq(session.archive_status.status.as_str(), "Complete") {
        return None;
    }
    if store.find_result(session.path.as_str()).is_some() {
        return None;
    }
    if parse_session_end(session.end_date.as_str(), session.gmt_offset.as_str()).is_none() {
        return None;
    }
    let standings = match flat_standings(feed) {
        Ok(table) => table,
        Err(_) => {
            return None;
        },
    };
    let mut title = feed.free.data.r.clone();
    title.append(": ");
    title.append(feed.free.data.s.as_str());
    let results = SessionResults { title, standings };
    let text = format_results(&results);
    proof {
        let rows = feed.free.data.dr@;
        assert forall|k: int| 0 <= k < rows.len() implies position_of(
            (#[trigger] rows[k]).f.position@,
        ) is Some by {
            assert(is_flat_row(rows[k], results.standings@[k]));
        }
    }
    let event = store.latest_session_index(now);
    store.insert_result(session.path.clone(), results, event, now);
    proof {
        assert(final(store).results@.drop_last() =~= old(store).results@);
    }
    Some(text)
}

} // verus!
