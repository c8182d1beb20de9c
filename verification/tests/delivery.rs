use hamverbot::database::{is_event_delivered, DriverRef, Store};
use hamverbot::event_results::{driver_standings, flat_standings, read_result};
use hamverbot::fetch::{FetchError, TimingLine};
use hamverbot::irc::join_channel;
use hamverbot::models::{
    ArchiveStatus, Circuit, Country, Data, Dr4, Dr4Fields, Free, Meeting, SPFeed, SessionInfo,
};
use hamverbot::worker::{deliver_results, result_worker};

fn line(position: &str, number: &str, lap: &str) -> TimingLine {
    TimingLine {
        position: position.to_string(),
        racing_number: number.to_string(),
        best_lap_time: lap.to_string(),
        interval_to_position_ahead: None,
    }
}

fn store() -> Store {
    let mut store = Store::new();
    store.upsert_driver(DriverRef { racing_number: 1, tla: "VER".to_string(), team_name: "Red Bull".to_string() });
    store.upsert_driver(DriverRef { racing_number: 16, tla: "LEC".to_string(), team_name: "Ferrari".to_string() });
    join_channel("#f1", &mut store);
    join_channel("#racing", &mut store);
    store
}

fn row(name: &str, time: &str, position: &str) -> Dr4 {
    Dr4 {
        f: Dr4Fields {
            driver_name: name.to_string(),
            time: time.to_string(),
            team_name: "Team".to_string(),
            position: position.to_string(),
            difference: "+1".to_string(),
            line: 0,
        },
    }
}

fn feed(rows: Vec<Dr4>) -> SPFeed {
    SPFeed { free: Free { data: Data { dr: rows, s: "Race".to_string(), r: "Bahrain Grand Prix".to_string() } } }
}

fn session(path: &str, status: &str, end: &str, offset: &str) -> SessionInfo {
    SessionInfo {
        meeting: Meeting {
            key: 1,
            name: "Bahrain Grand Prix".to_string(),
            official_name: "FORMULA 1 BAHRAIN GRAND PRIX 2024".to_string(),
            location: "Sakhir".to_string(),
            country: Country { key: 1, code: "BRN".to_string(), name: "Bahrain".to_string() },
            circuit: Circuit { key: 1, short_name: "Sakhir".to_string() },
        },
        archive_status: ArchiveStatus { status: status.to_string() },
        key: 9,
        type_field: "Race".to_string(),
        name: "Race".to_string(),
        start_date: "2024-03-02T18:00:00".to_string(),
        end_date: end.to_string(),
        gmt_offset: offset.to_string(),
        path: path.to_string(),
    }
}

#[test]
fn a_finished_session_is_delivered_once() {
    let mut store = store();
    let lines = vec![line("2", "16", "1:31.0"), line("1", "1", "1:30.0")];
    assert!(!result_worker(&store, "2024/x/", false));
    assert!(result_worker(&store, "2024/x/", true));
    let first = deliver_results(&mut store, "2024/x/", "Bahrain Race".to_string(), &lines, 0).unwrap();
    let text = "🏎️ \x02Bahrain Race Results\x02: 1. VER - \x0303[1:30.0]\x03 2. LEC - \x0303[1:31.0]\x03";
    assert_eq!(first.len(), 2);
    assert_eq!(first[0].target, "#f1");
    assert_eq!(first[1].target, "#racing");
    assert_eq!(first[0].text, text);
    assert_eq!(first[1].text, text);
    assert!(is_event_delivered(&store, "2024/x/"));
    assert!(!result_worker(&store, "2024/x/", true));
    let second = deliver_results(&mut store, "2024/x/", "Bahrain Race".to_string(), &lines, 1).unwrap();
    assert!(second.is_empty());
    assert_eq!(store.results.iter().filter(|r| r.path == "2024/x/").count(), 1);
}

#[test]
fn a_delivery_that_fails_keeps_nothing_and_can_be_made_again() {
    let mut store = store();
    let bad = vec![line("1", "99", "1:30.0")];
    assert_eq!(
        deliver_results(&mut store, "2024/x/", "T".to_string(), &bad, 0),
        Err(FetchError::DriverNotFound("99".to_string()))
    );
    assert!(result_worker(&store, "2024/x/", true));
    let good = vec![line("1", "1", "1:30.0")];
    assert_eq!(deliver_results(&mut store, "2024/x/", "T".to_string(), &good, 0).unwrap().len(), 2);
    assert_eq!(store.results.len(), 1);
}

#[test]
fn another_session_is_delivered_on_its_own() {
    let mut store = store();
    let lines = vec![line("1", "1", "1:30.0")];
    assert_eq!(deliver_results(&mut store, "2024/x/", "X".to_string(), &lines, 0).unwrap().len(), 2);
    assert!(result_worker(&store, "2024/y/", true));
    assert_eq!(deliver_results(&mut store, "2024/y/", "Y".to_string(), &lines, 0).unwrap().len(), 2);
    assert_eq!(store.results.len(), 2);
}

#[test]
fn the_flat_feed_names_its_drivers() {
    let feed = feed(vec![row("LEC", "1:31.0", "2"), row("VER", "1:30.0", "1")]);
    let table = flat_standings(&feed).unwrap();
    assert_eq!(table.len(), 2);
    assert_eq!(table[0].position, 2);
    assert_eq!(table[0].driver_name, "LEC");
    assert_eq!(table[0].difference, Some("+1".to_string()));
    assert_eq!(
        driver_standings(&feed),
        Ok("🏎️ \x02Bahrain Grand Prix: Race Results\x02: 1. VER - \x0303[1:30.0]\x03 2. LEC - \x0303[1:31.0]\x03".to_string())
    );
    let broken = self::feed(vec![row("VER", "1:30.0", "1"), row("LEC", "1:31.0", "DNF")]);
    assert_eq!(driver_standings(&broken), Err(FetchError::InvalidPosition("DNF".to_string())));
}

#[test]
fn the_flat_feed_is_delivered_once_when_complete() {
    let mut store = Store::new();
    let feed = feed(vec![row("VER", "1:30.0", "1")]);
    let text = "🏎️ \x02Bahrain Grand Prix: Race Results\x02: 1. VER - \x0303[1:30.0]\x03";
    let running = session("2024/x/", "Generating", "2024-03-02T20:00:00", "03:00:00");
    assert_eq!(read_result(&mut store, &running, &feed, 0), None);
    let unreadable = session("2024/x/", "Complete", "2024-03-02T20:00:00", "-03:00:00");
    assert_eq!(read_result(&mut store, &unreadable, &feed, 0), None);
    let done = session("2024/x/", "Complete", "2024-03-02T20:00:00", "03:00:00");
    let broken = self::feed(vec![row("VER", "1:30.0", "first")]);
    assert_eq!(read_result(&mut store, &done, &broken, 0), None);
    assert_eq!(store.results.len(), 0);
    assert_eq!(read_result(&mut store, &done, &feed, 0), Some(text.to_string()));
    assert_eq!(store.results.len(), 1);
    assert_eq!(read_result(&mut store, &done, &feed, 0), None);
    assert_eq!(store.results.len(), 1);
}
