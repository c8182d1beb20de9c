use hamverbot::database::{
    get_latest_path, is_event_delivered, next_event_filtered, DriverRef, EventType, Store,
};
use hamverbot::models::SessionResults;

fn enter(store: &mut Store, name: &str, kind: EventType, start: i64, slug: &str) {
    store.upsert_event(name.to_string(), kind, start, Some(slug.to_string()));
}

fn results(title: &str) -> SessionResults {
    SessionResults { title: title.to_string(), standings: Vec::new() }
}

#[test]
fn an_empty_store_has_no_next_event() {
    let store = Store::new();
    assert_eq!(next_event_filtered(&store, 0, None), None);
    assert_eq!(next_event_filtered(&store, 0, Some(EventType::Race)), None);
    assert_eq!(get_latest_path(&store), None);
    assert!(!is_event_delivered(&store, "2024/x/"));
}

#[test]
fn the_next_event_is_the_earliest_after_now() {
    let mut store = Store::new();
    enter(&mut store, "B", EventType::Race, 300, "b-gp");
    enter(&mut store, "A", EventType::Qualifying, 200, "a-q");
    enter(&mut store, "C", EventType::FreePractice1, 100, "c-fp1");
    assert_eq!(
        next_event_filtered(&store, 50, None),
        Some(("C".to_string(), EventType::FreePractice1, 100))
    );
    assert_eq!(
        next_event_filtered(&store, 100, None),
        Some(("A".to_string(), EventType::Qualifying, 200))
    );
    assert_eq!(
        next_event_filtered(&store, 299, None),
        Some(("B".to_string(), EventType::Race, 300))
    );
    assert_eq!(next_event_filtered(&store, 300, None), None);
}

#[test]
fn the_next_event_of_a_kind_passes_over_other_kinds() {
    let mut store = Store::new();
    enter(&mut store, "A", EventType::Qualifying, 200, "a-q");
    enter(&mut store, "B", EventType::Race, 300, "b-gp");
    enter(&mut store, "C", EventType::Race, 250, "c-gp");
    assert_eq!(
        next_event_filtered(&store, 0, Some(EventType::Race)),
        Some(("C".to_string(), EventType::Race, 250))
    );
    assert_eq!(next_event_filtered(&store, 0, Some(EventType::Sprint)), None);
    assert_eq!(next_event_filtered(&store, 250, Some(EventType::Qualifying)), None);
}

#[test]
fn of_two_events_that_start_together_the_first_entered_is_next() {
    let mut store = Store::new();
    enter(&mut store, "First", EventType::Race, 500, "one");
    enter(&mut store, "Second", EventType::Race, 500, "two");
    assert_eq!(
        next_event_filtered(&store, 0, None),
        Some(("First".to_string(), EventType::Race, 500))
    );
}

#[test]
fn entering_a_kept_slug_changes_only_the_start() {
    let mut store = Store::new();
    enter(&mut store, "Old name", EventType::Race, 500, "2024-bahrain-gp");
    enter(&mut store, "Other", EventType::Sprint, 700, "2024-china-sprint");
    enter(&mut store, "New name", EventType::Qualifying, 900, "2024-bahrain-gp");
    assert_eq!(store.events.len(), 2);
    assert_eq!(store.events[0].meeting_name, "Old name");
    assert_eq!(store.events[0].event_type, EventType::Race);
    assert_eq!(store.events[0].start_time, 900);
    assert_eq!(store.events[0].event_slug.as_deref(), Some("2024-bahrain-gp"));
    assert_eq!(store.events[1].start_time, 700);
    assert_eq!(store.find_event("2024-bahrain-gp"), Some(0));
    assert_eq!(store.find_event("2024-china-sprint"), Some(1));
    assert_eq!(store.find_event("2024-china-gp"), None);
}

#[test]
fn a_result_is_kept_once_per_path() {
    let mut store = Store::new();
    assert!(store.insert_result("2024/a/".to_string(), results("first"), None, 0));
    assert!(is_event_delivered(&store, "2024/a/"));
    assert!(!is_event_delivered(&store, "2024/b/"));
    assert!(!store.insert_result("2024/a/".to_string(), results("second"), Some(3), 0));
    assert_eq!(store.results.len(), 1);
    assert_eq!(store.results[0].data.title, "first");
    assert_eq!(store.results[0].event, None);
    assert_eq!(store.cached_result("2024/a/").map(|r| r.title.clone()), Some("first".to_string()));
    assert!(store.cached_result("2024/b/").is_none());
}

#[test]
fn the_latest_path_is_the_one_kept_last() {
    let mut store = Store::new();
    store.insert_result("2024/a/".to_string(), results("a"), None, 0);
    store.insert_result("2024/b/".to_string(), results("b"), None, 0);
    store.insert_result("2024/a/".to_string(), results("again"), None, 0);
    assert_eq!(get_latest_path(&store), Some("2024/b/".to_string()));
}

#[test]
fn the_latest_session_is_the_last_started_on_track() {
    let mut store = Store::new();
    assert_eq!(store.latest_session_index(1000), None);
    enter(&mut store, "Launch", EventType::LiveryReveal, 900, "launch");
    assert_eq!(store.latest_session_index(1000), None);
    enter(&mut store, "FP1", EventType::FreePractice1, 100, "fp1");
    enter(&mut store, "Q", EventType::Qualifying, 400, "q");
    enter(&mut store, "Q again", EventType::Qualifying, 400, "q2");
    enter(&mut store, "Race", EventType::Race, 1000, "gp");
    assert_eq!(store.latest_session_index(1000), Some(2));
    assert_eq!(store.latest_session_index(1001), Some(4));
    assert_eq!(store.latest_session_index(400), Some(1));
    assert_eq!(store.latest_session_index(100), None);
}

#[test]
fn a_driver_is_replaced_under_their_number() {
    let mut store = Store::new();
    store.upsert_driver(DriverRef { racing_number: 44, tla: "HAM".to_string(), team_name: "Mercedes".to_string() });
    store.upsert_driver(DriverRef { racing_number: 1, tla: "VER".to_string(), team_name: "Red Bull".to_string() });
    store.upsert_driver(DriverRef { racing_number: 44, tla: "HAM".to_string(), team_name: "Ferrari".to_string() });
    assert_eq!(store.drivers.len(), 2);
    assert_eq!(store.find_driver(44), Some(0));
    assert_eq!(store.drivers[0].team_name, "Ferrari");
    assert_eq!(store.find_driver(1), Some(1));
    assert_eq!(store.find_driver(-1), None);
}

#[test]
fn no_alert_is_marked_in_a_new_store() {
    let store = Store::new();
    assert!(!store.alert_sent("Bahrain: Race", 100));
}

#[test]
fn events_without_a_slug_are_always_added() {
    let mut store = Store::new();
    store.upsert_event("A".to_string(), EventType::Race, 100, None);
    store.upsert_event("A".to_string(), EventType::Race, 200, None);
    enter(&mut store, "B", EventType::Race, 300, "b");
    store.upsert_event("C".to_string(), EventType::Race, 400, None);
    enter(&mut store, "B", EventType::Race, 500, "b");
    assert_eq!(store.events.len(), 4);
    let starts: Vec<i64> = store.events.iter().map(|e| e.start_time).collect();
    assert_eq!(starts, vec![100, 200, 500, 400]);
    assert_eq!(store.events[0].event_slug, None);
    assert_eq!(store.find_event(""), None);
}
