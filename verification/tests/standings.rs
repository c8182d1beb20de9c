use hamverbot::database::Store;
use hamverbot::fetch::{
    fetch_wcc_standings, fetch_wdc_standings, format_table, format_wcc_standings,
    format_wdc_standings, return_wcc_standings, return_wdc_standings, StandingRow, StandingsReply,
};
use hamverbot::models::{
    Constructor, ConstructorStanding, ConstructorStandingsList, CurrentConstructorStandings,
    CurrentDriverStandings, Driver, DriverStandingsList, ErgastAPIDriverStanding,
};

fn driver(position: &str, code: &str, points: &str) -> ErgastAPIDriverStanding {
    ErgastAPIDriverStanding {
        position: position.to_string(),
        points: points.to_string(),
        driver: Driver { code: code.to_string(), ..Driver::default() },
        ..ErgastAPIDriverStanding::default()
    }
}

fn drivers(season: &str, rows: Vec<ErgastAPIDriverStanding>) -> CurrentDriverStandings {
    let mut standings = CurrentDriverStandings::default();
    standings.mrdata.standings_table.season = season.to_string();
    standings.mrdata.standings_table.standings_lists = vec![DriverStandingsList {
        season: season.to_string(),
        round: "3".to_string(),
        driver_standings: rows,
    }];
    standings
}

fn constructor(position: &str, name: &str, points: &str) -> ConstructorStanding {
    ConstructorStanding {
        position: position.to_string(),
        points: points.to_string(),
        constructor: Constructor { name: name.to_string(), ..Constructor::default() },
        ..ConstructorStanding::default()
    }
}

fn constructors(season: &str, rows: Vec<ConstructorStanding>) -> CurrentConstructorStandings {
    let mut standings = CurrentConstructorStandings::default();
    standings.mrdata.standings_table.season = season.to_string();
    standings.mrdata.standings_table.standings_lists = vec![ConstructorStandingsList {
        season: season.to_string(),
        round: "3".to_string(),
        constructor_standings: rows,
    }];
    standings
}

#[test]
fn drivers_championship_shows_the_top_ten_by_position() {
    let order = [12, 1, 15, 3, 2, 5, 4, 7, 6, 9, 8, 11, 10, 13, 14];
    let rows = order
        .iter()
        .map(|p| driver(&p.to_string(), &format!("D{:02}", p), &format!("{}", 400 - p * 10)))
        .collect();
    let text = format_wdc_standings(&drivers("2024", rows)).unwrap();
    let mut expected = String::from("🏆 \x02 FORMULA 1 2024 WDC Standings\x02:");
    for p in 1..=10 {
        expected.push_str(&format!(" {}. D{:02} - \x0303[{}]\x03", p, p, 400 - p * 10));
    }
    assert_eq!(text, expected);
}

#[test]
fn constructors_championship_message() {
    let rows = vec![constructor("2", "Ferrari", "120"), constructor("1", "Red Bull", "141")];
    let text = format_wcc_standings(&constructors("2024", rows)).unwrap();
    assert_eq!(
        text,
        "🔧 \x02 FORMULA 1 2024 WCC Standings\x02: 1. Red Bull - \x0303[141]\x03 2. Ferrari - \x0303[120]\x03"
    );
}

#[test]
fn a_position_that_is_no_number_goes_last_and_ties_keep_feed_order() {
    let rows = vec![driver("-", "EXC", "0"), driver("2", "B", "10"), driver("1", "A", "20"), driver("2", "C", "10")];
    let text = format_wdc_standings(&drivers("2023", rows)).unwrap();
    assert_eq!(
        text,
        "🏆 \x02 FORMULA 1 2023 WDC Standings\x02: 1. A - \x0303[20]\x03 2. B - \x0303[10]\x03 2. C - \x0303[10]\x03 -. EXC - \x0303[0]\x03"
    );
}

#[test]
fn an_answer_without_a_standings_list_gives_no_message() {
    assert_eq!(format_wdc_standings(&CurrentDriverStandings::default()), None);
    assert_eq!(format_wcc_standings(&CurrentConstructorStandings::default()), None);
}

#[test]
fn a_table_is_its_heading_and_its_rows() {
    let row = |key: i64, position: &str| StandingRow {
        key,
        position: position.to_string(),
        name: "N".to_string(),
        score: "S".to_string(),
    };
    assert_eq!(format_table("H".to_string(), &vec![]), "H");
    assert_eq!(
        format_table("H".to_string(), &vec![row(2, "two"), row(1, "one")]),
        "H one. N - \x0303[S]\x03 two. N - \x0303[S]\x03"
    );
}

#[test]
fn standings_are_read_from_the_cache_once_fetched() {
    let mut store = Store::new();
    assert_eq!(return_wdc_standings(&store), StandingsReply::NeedsFetch);
    assert_eq!(return_wcc_standings(&store), StandingsReply::NeedsFetch);
    fetch_wdc_standings(&mut store, drivers("2024", vec![driver("1", "VER", "51")]));
    assert_eq!(
        return_wdc_standings(&store),
        StandingsReply::Text("🏆 \x02 FORMULA 1 2024 WDC Standings\x02: 1. VER - \x0303[51]\x03".to_string())
    );
    assert_eq!(return_wcc_standings(&store), StandingsReply::NeedsFetch);
    fetch_wcc_standings(&mut store, CurrentConstructorStandings::default());
    assert_eq!(return_wcc_standings(&store), StandingsReply::Unavailable);
    fetch_wcc_standings(&mut store, constructors("2024", vec![constructor("1", "Red Bull", "87")]));
    assert_eq!(
        return_wcc_standings(&store),
        StandingsReply::Text("🔧 \x02 FORMULA 1 2024 WCC Standings\x02: 1. Red Bull - \x0303[87]\x03".to_string())
    );
}
