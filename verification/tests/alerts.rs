use hamverbot::database::{EventType, Store};
use hamverbot::models::{EventTracker, Race, SeasonContext, Timetable};
use hamverbot::next_event::{alert_for, closest_upcoming, fetch_events, fetch_next_event};
use hamverbot::worker::alert_worker;

fn entry(state: &str, description: &str, start: &str, offset: &str) -> Timetable {
    Timetable {
        state: state.to_string(),
        session: "x".to_string(),
        gmt_offset: offset.to_string(),
        description: description.to_string(),
        end_time: String::new(),
        start_time: start.to_string(),
    }
}

fn tracker(timetables: Vec<Timetable>) -> EventTracker {
    EventTracker {
        season_context: SeasonContext { timetables },
        race: Race {
            meeting_official_name: "FORMULA 1 BAHRAIN GRAND PRIX 2024".to_string(),
            ..Race::default()
        },
    }
}

#[test]
fn an_event_four_minutes_away_alerts_once() {
    let mut store = Store::new();
    let start = 1_709_391_600;
    let now = start - 4 * 60;
    let first = alert_for(&mut store, "Bahrain: Race".to_string(), start, now);
    assert_eq!(first, Some("🏎️ \x02Bahrain: Race\x02 begins in 5 minutes.".to_string()));
    assert!(store.alert_sent("Bahrain: Race", start));
    let second = alert_for(&mut store, "Bahrain: Race".to_string(), start, now + 1);
    assert_eq!(second, None);
    assert_eq!(store.alerts.len(), 1);
    for later in 2..300 {
        assert_eq!(alert_for(&mut store, "Bahrain: Race".to_string(), start, now + later), None);
    }
}

#[test]
fn the_alert_window_is_one_to_under_six_minutes() {
    let start = 10_000;
    let fires = |left: i64| {
        let mut store = Store::new();
        alert_for(&mut store, "E".to_string(), start, start - left).is_some()
    };
    assert!(!fires(360));
    assert!(fires(359));
    assert!(fires(300));
    assert!(fires(60));
    assert!(!fires(59));
    assert!(!fires(0));
    assert!(!fires(-60));
    assert!(!fires(3600));
    let mut store = Store::new();
    assert_eq!(alert_for(&mut store, "E".to_string(), i64::MAX, i64::MIN), None);
    assert_eq!(alert_for(&mut store, "E".to_string(), i64::MIN, i64::MAX), None);
}

#[test]
fn another_event_or_another_start_alerts_anew() {
    let mut store = Store::new();
    assert!(alert_for(&mut store, "A".to_string(), 1000, 800).is_some());
    assert!(alert_for(&mut store, "B".to_string(), 1000, 800).is_some());
    assert!(alert_for(&mut store, "A".to_string(), 1001, 800).is_some());
    assert!(alert_for(&mut store, "A".to_string(), 1000, 800).is_none());
    assert_eq!(store.alerts.len(), 3);
}

#[test]
fn the_closest_upcoming_entry_is_the_earliest() {
    let timetables = vec![
        entry("completed", "Practice 1", "2024-02-29T14:30:00", "+03:00"),
        entry("upcoming", "Race", "2024-03-02T18:00:00", "+03:00"),
        entry("upcoming", "Qualifying", "2024-03-01T19:00:00", "+03:00"),
        entry("upcoming", "Practice 3", "2024-03-01T15:30:00", "+03:00"),
    ];
    assert_eq!(closest_upcoming(&timetables), Some(3));
    assert_eq!(closest_upcoming(&Vec::new()), None);
    assert_eq!(closest_upcoming(&vec![entry("completed", "x", "2024-03-01T15:30:00", "+03:00")]), None);
}

#[test]
fn offsets_decide_which_entry_is_closest() {
    let timetables = vec![
        entry("upcoming", "Late", "2024-03-01T12:00:00", "-05:00"),
        entry("upcoming", "Early", "2024-03-01T13:00:00", "+03:00"),
    ];
    assert_eq!(closest_upcoming(&timetables), Some(1));
}

#[test]
fn an_entry_whose_start_cannot_be_read_is_not_given_up_nor_taken() {
    let timetables = vec![
        entry("upcoming", "Unreadable", "soon", "+03:00"),
        entry("upcoming", "Race", "2024-03-02T18:00:00", "+03:00"),
    ];
    assert_eq!(closest_upcoming(&timetables), Some(0));
    let timetables = vec![
        entry("upcoming", "Race", "2024-03-02T18:00:00", "+03:00"),
        entry("upcoming", "Unreadable", "2024-03-01T18:00:00", "03:00:00"),
        entry("upcoming", "Qualifying", "2024-03-01T19:00:00", "+03:00"),
    ];
    assert_eq!(closest_upcoming(&timetables), Some(2));
}

#[test]
fn the_tracker_alerts_for_its_closest_entry() {
    let mut store = Store::new();
    let feed = tracker(vec![
        entry("upcoming", "Race", "2024-03-02T18:00:00", "+03:00"),
        entry("upcoming", "Qualifying", "2024-03-01T19:00:00", "+03:00"),
    ]);
    // Qualifying starts at 2024-03-01 16:00:00 UTC.
    let start = 1_709_308_800;
    assert_eq!(fetch_next_event(&mut store, &feed, start - 361), None);
    assert_eq!(
        fetch_next_event(&mut store, &feed, start - 300),
        Some("🏎️ \x02FORMULA 1 BAHRAIN GRAND PRIX 2024: Qualifying\x02 begins in 5 minutes.".to_string())
    );
    assert_eq!(fetch_next_event(&mut store, &feed, start - 299), None);
    assert_eq!(fetch_next_event(&mut store, &feed, start - 60), None);
    assert_eq!(store.alerts.len(), 1);
    assert_eq!(store.alerts[0].start_time, start);
}

#[test]
fn an_unreadable_closest_entry_gives_no_alert() {
    let mut store = Store::new();
    store.upsert_event("M".to_string(), EventType::Race, 1000, Some("gp".to_string()));
    let feed = tracker(vec![entry("upcoming", "Race", "not a date", "+03:00")]);
    assert_eq!(fetch_next_event(&mut store, &feed, 800), None);
    assert_eq!(store.alerts.len(), 0);
}

#[test]
fn without_upcoming_entries_the_schedule_decides() {
    let mut store = Store::new();
    store.upsert_event("🏁 FORMULA 1 BAHRAIN GRAND PRIX 2024".to_string(), EventType::Race, 2000, Some("gp".to_string()));
    store.upsert_event("⏱️ FORMULA 1 BAHRAIN GRAND PRIX 2024".to_string(), EventType::Qualifying, 1000, Some("q".to_string()));
    let feed = tracker(vec![entry("completed", "Practice 1", "2024-02-29T14:30:00", "+03:00")]);
    assert_eq!(fetch_next_event(&mut store, &feed, 0), None);
    assert_eq!(
        fetch_next_event(&mut store, &feed, 760),
        Some("🏎️ \x02⏱️ FORMULA 1 BAHRAIN GRAND PRIX 2024: Qualifying\x02 begins in 5 minutes.".to_string())
    );
    assert_eq!(fetch_next_event(&mut store, &feed, 761), None);
    assert_eq!(
        fetch_next_event(&mut store, &feed, 1700),
        Some("🏎️ \x02🏁 FORMULA 1 BAHRAIN GRAND PRIX 2024: Race\x02 begins in 5 minutes.".to_string())
    );
    assert_eq!(fetch_next_event(&mut store, &feed, 2000), None);
}

#[test]
fn upcoming_entries_are_listed_in_feed_order() {
    let feed = tracker(vec![
        entry("upcoming", "a", "", ""),
        entry("completed", "b", "", ""),
        entry("Upcoming", "c", "", ""),
        entry("upcoming", "d", "", ""),
    ]);
    assert_eq!(fetch_events(&feed), Some(vec![0, 3]));
    assert_eq!(fetch_events(&tracker(vec![entry("completed", "b", "", "")])), None);
    assert_eq!(fetch_events(&tracker(Vec::new())), None);
}

#[test]
fn the_alert_job_broadcasts_once_and_asks_for_a_calendar_when_empty() {
    let mut store = Store::new();
    hamverbot::irc::join_channel("#f1", &mut store);
    hamverbot::irc::join_channel("#racing", &mut store);
    let feed = tracker(Vec::new());
    let outcome = alert_worker(&mut store, &feed, 0);
    assert!(outcome.refresh_calendar);
    assert!(outcome.messages.is_empty());

    store.upsert_event("M".to_string(), EventType::Sprint, 1000, Some("s".to_string()));
    let outcome = alert_worker(&mut store, &feed, 760);
    assert!(!outcome.refresh_calendar);
    let targets: Vec<&str> = outcome.messages.iter().map(|m| m.target.as_str()).collect();
    assert_eq!(targets, vec!["#f1", "#racing"]);
    for message in &outcome.messages {
        assert_eq!(message.text, "🏎️ \x02M: Sprint\x02 begins in 5 minutes.");
    }
    let outcome = alert_worker(&mut store, &feed, 761);
    assert!(!outcome.refresh_calendar);
    assert!(outcome.messages.is_empty());
    let outcome = alert_worker(&mut store, &feed, 1000);
    assert!(outcome.refresh_calendar);
    assert!(outcome.messages.is_empty());
}
