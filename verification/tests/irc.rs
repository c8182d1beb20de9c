use hamverbot::database::Store;
use hamverbot::irc::{
    authenticate, broadcast, handle_authenticate, handle_response, join_channel, load_config,
    strip_command_prefix, ConfigError, IrcCommand, Outgoing,
};
use hamverbot::worker::{process_job, Feed, JobType};

#[test]
fn the_session_opens_with_sasl_password_nick_and_user() {
    assert_eq!(
        authenticate("HamVerBot", "hunter2"),
        vec![
            IrcCommand::CapReq("sasl".to_string()),
            IrcCommand::Pass("hunter2".to_string()),
            IrcCommand::Nick("HamVerBot".to_string()),
            IrcCommand::User(
                "HamVerBot".to_string(),
                "0".to_string(),
                "https://github.com/obviyus/HamVerBot".to_string()
            ),
        ]
    );
}

#[test]
fn credentials_are_sent_in_base64() {
    assert_eq!(
        handle_authenticate("user", "pass"),
        vec![IrcCommand::Authenticate("dXNlcgB1c2VyAHBhc3M=".to_string()), IrcCommand::CapEnd]
    );
    assert_eq!(
        handle_authenticate("nïck", "p"),
        vec![IrcCommand::Authenticate("bsOvY2sAbsOvY2sAcA==".to_string()), IrcCommand::CapEnd]
    );
}

#[test]
fn the_negotiation_ends_when_sasl_succeeds() {
    assert_eq!(handle_response(true), vec![IrcCommand::CapEnd]);
    assert_eq!(handle_response(false), Vec::new());
}

#[test]
fn a_broadcast_goes_to_every_channel_in_turn() {
    let mut store = Store::new();
    assert_eq!(broadcast("hello", &store), Vec::new());
    assert_eq!(join_channel("#f1", &mut store), IrcCommand::Join("#f1".to_string()));
    assert_eq!(join_channel("#racing", &mut store), IrcCommand::Join("#racing".to_string()));
    assert_eq!(
        broadcast("hello", &store),
        vec![
            Outgoing { target: "#f1".to_string(), text: "hello".to_string() },
            Outgoing { target: "#racing".to_string(), text: "hello".to_string() },
        ]
    );
}

#[test]
fn the_prefix_marks_a_command() {
    assert_eq!(strip_command_prefix("!ping", "!"), Some("ping".to_string()));
    assert_eq!(strip_command_prefix("!", "!"), Some("".to_string()));
    assert_eq!(strip_command_prefix("ping", "!"), None);
    assert_eq!(strip_command_prefix("", "!"), None);
    assert_eq!(strip_command_prefix("anything", ""), Some("anything".to_string()));
    assert_eq!(strip_command_prefix("bot: next utc+1", "bot: "), Some("next utc+1".to_string()));
    assert_eq!(strip_command_prefix("bo", "bot: "), None);
    assert_eq!(strip_command_prefix("é!x", "é!"), Some("x".to_string()));
}

#[test]
fn the_configuration_has_its_defaults() {
    let config = load_config(None, "bot".to_string(), None, "from file".to_string(), vec!["#f1".to_string()]);
    assert_eq!(config.command_prefix, "!");
    assert_eq!(config.nickname, "bot");
    assert_eq!(config.password, "from file");
    assert_eq!(config.channels, vec!["#f1".to_string()]);
    let config = load_config(
        Some("~".to_string()),
        "bot".to_string(),
        Some("from env".to_string()),
        "from file".to_string(),
        Vec::new(),
    );
    assert_eq!(config.command_prefix, "~");
    assert_eq!(config.password, "from env");
    assert_eq!(ConfigError("no file".to_string()).0, "no file");
}

#[test]
fn every_job_starts_from_its_feed() {
    assert_eq!(process_job(JobType::Result), Feed::SessionInfo);
    assert_eq!(process_job(JobType::Alert), Feed::EventTracker);
    assert_eq!(process_job(JobType::Wdc), Feed::DriverStandings);
    assert_eq!(process_job(JobType::Wcc), Feed::ConstructorStandings);
}
