use hamverbot::database::EventType;

#[test]
fn every_synonym_names_its_kind() {
    let table: Vec<(&str, EventType)> = vec![
        ("livery reveal", EventType::LiveryReveal),
        ("l", EventType::LiveryReveal),
        ("livery", EventType::LiveryReveal),
        ("practice 1", EventType::FreePractice1),
        ("p1", EventType::FreePractice1),
        ("fp1", EventType::FreePractice1),
        ("practice 2", EventType::FreePractice2),
        ("p2", EventType::FreePractice2),
        ("fp2", EventType::FreePractice2),
        ("practice 3", EventType::FreePractice3),
        ("p3", EventType::FreePractice3),
        ("fp3", EventType::FreePractice3),
        ("qualifying", EventType::Qualifying),
        ("quali", EventType::Qualifying),
        ("q", EventType::Qualifying),
        ("sprint qualifying", EventType::SprintQualifying),
        ("sq", EventType::SprintQualifying),
        ("sprint_qualifying", EventType::SprintQualifying),
        ("sprint", EventType::Sprint),
        ("s", EventType::Sprint),
        ("race", EventType::Race),
        ("r", EventType::Race),
        ("gp", EventType::Race),
    ];
    for (token, kind) in table {
        assert_eq!(EventType::from_str(token), Some(kind), "{}", token);
    }
}

#[test]
fn other_tokens_name_no_kind() {
    assert_eq!(EventType::from_str(""), None);
    assert_eq!(EventType::from_str("Q"), None);
    assert_eq!(EventType::from_str("qualifying "), None);
    assert_eq!(EventType::from_str("fp4"), None);
    assert_eq!(EventType::from_str("utc+1"), None);
}

#[test]
fn names_of_the_kinds() {
    assert_eq!(EventType::LiveryReveal.to_str(), "Livery Reveal");
    assert_eq!(EventType::FreePractice1.to_str(), "Practice 1");
    assert_eq!(EventType::FreePractice2.to_str(), "Practice 2");
    assert_eq!(EventType::FreePractice3.to_str(), "Practice 3");
    assert_eq!(EventType::Qualifying.to_str(), "Qualifying");
    assert_eq!(EventType::SprintQualifying.to_str(), "Sprint Qualifying");
    assert_eq!(EventType::Sprint.to_str(), "Sprint");
    assert_eq!(EventType::Race.to_str(), "Race");
}

#[test]
fn icons_of_the_kinds() {
    assert_eq!(EventType::LiveryReveal.to_emoji(), "");
    assert_eq!(EventType::FreePractice1.to_emoji(), "🏎️");
    assert_eq!(EventType::FreePractice2.to_emoji(), "🏎️");
    assert_eq!(EventType::FreePractice3.to_emoji(), "🏎️");
    assert_eq!(EventType::Qualifying.to_emoji(), "⏱️");
    assert_eq!(EventType::SprintQualifying.to_emoji(), "⏱️");
    assert_eq!(EventType::Sprint.to_emoji(), "🏎");
    assert_eq!(EventType::Race.to_emoji(), "🏁");
}

#[test]
fn numbers_of_the_kinds_round_trip() {
    let kinds = [
        (1, EventType::LiveryReveal),
        (2, EventType::FreePractice1),
        (3, EventType::FreePractice2),
        (4, EventType::FreePractice3),
        (5, EventType::Qualifying),
        (6, EventType::Sprint),
        (7, EventType::Race),
        (8, EventType::SprintQualifying),
    ];
    for (id, kind) in kinds {
        assert_eq!(kind.id(), id);
        assert_eq!(EventType::from_i64(id), kind);
    }
}
