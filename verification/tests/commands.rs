use hamverbot::database::{EventType, Store};
use hamverbot::fetch::fetch_wdc_standings;
use hamverbot::message::{
    command_from_words, handle_irc_message, parse_command, reply_to_command, Command,
    CommandHandler, Reply,
};
use hamverbot::models::{CurrentDriverStandings, SessionResults};

fn schedule() -> Store {
    let mut store = Store::new();
    store.upsert_event("Bahrain".to_string(), EventType::Race, 1_709_391_600, Some("gp".to_string()));
    store.upsert_event("Bahrain".to_string(), EventType::Qualifying, 1_709_308_800, Some("q".to_string()));
    store
}

#[test]
fn ping_in_any_case_gets_pong() {
    let store = Store::new();
    let upper = handle_irc_message(&store, "PING", 0);
    let lower = handle_irc_message(&store, "ping", 0);
    let mixed = handle_irc_message(&store, "  PiNg  now", 0);
    assert_eq!(upper, Ok(Reply::Text("pong".to_string())));
    assert_eq!(upper, lower);
    assert_eq!(upper, mixed);
    assert_eq!(CommandHandler { store: &store, now: 0 }.handle_ping(), "pong");
}

#[test]
fn an_unknown_command_gets_no_reply_and_no_error() {
    let store = schedule();
    assert_eq!(handle_irc_message(&store, "pong", 0), Ok(Reply::Silent));
    assert_eq!(handle_irc_message(&store, "pingx", 0), Ok(Reply::Silent));
    assert_eq!(handle_irc_message(&store, "", 0), Ok(Reply::Silent));
    assert_eq!(handle_irc_message(&store, "   ", 0), Ok(Reply::Silent));
    assert_eq!(handle_irc_message(&store, "help me", 0), Ok(Reply::Silent));
}

#[test]
fn commands_and_their_short_forms() {
    assert_eq!(parse_command("ping"), Some(Command::Ping));
    assert_eq!(parse_command("n"), Some(Command::Next { timezone: None }));
    assert_eq!(parse_command("NEXT UTC+1"), Some(Command::Next { timezone: Some("utc+1".to_string()) }));
    assert_eq!(parse_command("w"), Some(Command::When { event_type: None, timezone: None }));
    assert_eq!(
        parse_command("when\tQuali   gmt-3 extra"),
        Some(Command::When { event_type: Some("quali".to_string()), timezone: Some("gmt-3".to_string()) })
    );
    assert_eq!(parse_command("w r"), Some(Command::When { event_type: Some("r".to_string()), timezone: None }));
    assert_eq!(parse_command("p"), Some(Command::Prev));
    assert_eq!(parse_command("prev"), Some(Command::Prev));
    assert_eq!(parse_command("d"), Some(Command::Drivers));
    assert_eq!(parse_command("Drivers"), Some(Command::Drivers));
    assert_eq!(parse_command("c"), Some(Command::Constructors));
    assert_eq!(parse_command("constructors please"), Some(Command::Constructors));
    assert_eq!(parse_command("x"), None);
}

#[test]
fn words_decide_without_lowering() {
    assert_eq!(command_from_words(&vec!["PING".to_string()]), None);
    assert_eq!(command_from_words(&Vec::new()), None);
    assert_eq!(
        command_from_words(&vec!["n".to_string(), "a".to_string(), "b".to_string()]),
        Some(Command::Next { timezone: Some("a".to_string()) })
    );
}

#[test]
fn next_counts_down_or_gives_the_local_time() {
    let store = schedule();
    let now = 1_709_308_800 - 2 * 86_400 - 3 * 3600 - 5 * 60;
    assert_eq!(
        CommandHandler { store: &store, now: now }.handle_next(None),
        Ok("\x02Bahrain: Qualifying\x02 begins in 2 days and 3 hours".to_string())
    );
    assert_eq!(
        CommandHandler { store: &store, now: now }.handle_next(Some("utc+5:30")),
        Ok("\x02Bahrain: Qualifying\x02 starts at 21:30 UTC+05:30".to_string())
    );
    assert_eq!(
        CommandHandler { store: &store, now: now }.handle_next(Some("nonsense")),
        Ok("\x02Bahrain: Qualifying\x02 begins in 2 days and 3 hours".to_string())
    );
    assert_eq!(CommandHandler { store: &store, now: 1_709_391_600 }.handle_next(None), Ok("No upcoming events found.".to_string()));
}

#[test]
fn when_filters_by_kind() {
    let store = schedule();
    let now = 1_709_391_600 - 45 * 60;
    assert_eq!(
        CommandHandler { store: &store, now: 0 }.handle_when(Some("r"), None).unwrap(),
        format!("\x02Bahrain: Race\x02 begins in {} days and 15 hours", 1_709_391_600 / 86_400)
    );
    assert_eq!(CommandHandler { store: &store, now: now }.handle_when(Some("gp"), None), Ok("\x02Bahrain: Race\x02 begins in 45 minutes".to_string()));
    assert_eq!(
        CommandHandler { store: &store, now: now }.handle_when(Some("race"), Some("gmt-3")),
        Ok("\x02Bahrain: Race\x02 starts at 12:00 UTC-03:00".to_string())
    );
    assert_eq!(CommandHandler { store: &store, now: 0 }.handle_when(Some("sprint"), None), Ok("No upcoming events found.".to_string()));
    assert_eq!(
        CommandHandler { store: &store, now: 0 }.handle_when(Some("utc+1"), Some("utc+2")),
        Ok("\x02Bahrain: Qualifying\x02 starts at 18:00 UTC+02:00".to_string())
    );
    assert_eq!(
        CommandHandler { store: &store, now: now }.handle_when(None, None),
        Ok("\x02Bahrain: Race\x02 begins in 45 minutes".to_string())
    );
}

#[test]
fn an_event_beyond_the_calendar_is_an_error() {
    let mut store = Store::new();
    store.upsert_event("Far".to_string(), EventType::Race, i64::MAX, Some("far".to_string()));
    assert_eq!(CommandHandler { store: &store, now: 0 }.handle_next(None), Err("Invalid timestamp"));
    assert_eq!(handle_irc_message(&store, "next", 0), Err("Invalid timestamp"));
    assert_eq!(reply_to_command(&store, &Some(Command::Next { timezone: None }), 0), Err("Invalid timestamp"));
}

#[test]
fn prev_gives_the_result_kept_last() {
    let mut store = Store::new();
    assert_eq!(CommandHandler { store: &store, now: 0 }.handle_prev(), "No previous events found.");
    store.insert_result("a".to_string(), SessionResults { title: "A".to_string(), standings: Vec::new() }, None, 0);
    store.insert_result("b".to_string(), SessionResults { title: "B".to_string(), standings: Vec::new() }, None, 0);
    assert_eq!(CommandHandler { store: &store, now: 0 }.handle_prev(), "🏎️ \x02B Results\x02:");
    assert_eq!(handle_irc_message(&store, "P", 0), Ok(Reply::Text("🏎️ \x02B Results\x02:".to_string())));
}

#[test]
fn standings_commands_ask_for_a_fetch_or_answer_from_the_cache() {
    let mut store = Store::new();
    assert_eq!(CommandHandler { store: &store, now: 0 }.handle_wdc(), Reply::FetchDriverStandings);
    assert_eq!(CommandHandler { store: &store, now: 0 }.handle_wcc(), Reply::FetchConstructorStandings);
    assert_eq!(handle_irc_message(&store, "d", 0), Ok(Reply::FetchDriverStandings));
    assert_eq!(handle_irc_message(&store, "constructors", 0), Ok(Reply::FetchConstructorStandings));
    fetch_wdc_standings(&mut store, CurrentDriverStandings::default());
    assert_eq!(CommandHandler { store: &store, now: 0 }.handle_wdc(), Reply::Text("Failed to fetch standings.".to_string()));
}
