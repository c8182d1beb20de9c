//! The records that the feeds deliver and the bot keeps.
use vstd::prelude::*;

verus! {

/// What the timing service says of the session that is on or was last on.
#[derive(Default, Debug, Clone, PartialEq, Eq)]
pub struct SessionInfo {
    pub meeting: Meeting,
    pub archive_status: ArchiveStatus,
    pub key: i64,
    pub type_field: String,
    pub name: String,
    pub start_date: String,
    pub end_date: String,
    pub gmt_offset: String,
    pub path: String,
}

/// The race weekend a session belongs to.
#[derive(Default, Debug, Clone, PartialEq, Eq)]
pub struct Meeting {
    pub key: i64,
    pub name: String,
    pub official_name: String,
    pub location: String,
    pub country: Country,
    pub circuit: Circuit,
}

/// The country of a meeting.
#[derive(Default, Debug, Clone, PartialEq, Eq)]
pub struct Country {
    pub key: i64,
    pub code: String,
    pub name: String,
}

/// The circuit of a meeting.
#[derive(Default, Debug, Clone, PartialEq, Eq)]
pub struct Circuit {
    pub key: i64,
    pub short_name: String,
}

/// Whether a session is finished: `Complete` when it is.
#[derive(Default, Debug, Clone, PartialEq, Eq)]
pub struct ArchiveStatus {
    pub status: String,
}

/// A results feed in the flat layout.
#[derive(Default, Debug, Clone, PartialEq, Eq)]
pub struct SPFeed {
    pub free: Free,
}

/// The body of a flat results feed.
#[derive(Default, Debug, Clone, PartialEq, Eq)]
pub struct Free {
    pub data: Data,
}

/// One driver of the reference table.
#[derive(Default, Debug, Clone, PartialEq, Eq)]
pub struct DriverList {
    pub broadcast_name: String,
    pub country_code: String,
    pub first_name: String,
    pub full_name: String,
    pub last_name: String,
    pub line: i64,
    pub racing_number: String,
    pub reference: String,
    pub team_color: String,
    pub team_name: String,
    pub tla: String,
}

/// The rows and headings of a flat results feed.
#[derive(Default, Debug, Clone, PartialEq, Eq)]
pub struct Data {
    pub dr: Vec<Dr4>,
    pub s: String,
    pub r: String,
}

/// One row of a session classification.
#[derive(Default, Debug, Clone, PartialEq, Eq)]
pub struct F1APIDriverStanding {
    pub position: i8,
    pub driver_name: String,
    pub team_name: String,
    pub time: String,
    pub difference: Option<String>,
}

/// The classification of a finished session.
#[derive(Default, Debug, Clone, PartialEq, Eq)]
pub struct SessionResults {
    pub title: String,
    pub standings: Vec<F1APIDriverStanding>,
}

/// One driver row of a flat results feed.
#[derive(Default, Debug, Clone, PartialEq, Eq)]
pub struct Dr4 {
    pub f: Dr4Fields,
}

/// The columns of a driver row, in the order in which the feed lists them.
#[derive(Default, Debug, Clone, PartialEq, Eq)]
pub struct Dr4Fields {
    pub driver_name: String,
    pub time: String,
    pub team_name: String,
    pub position: String,
    pub difference: String,
    pub line: i64,
}

/// The season timetable as the event tracker gives it.
#[derive(Default, Debug, Clone, PartialEq, Eq)]
pub struct EventTracker {
    pub season_context: SeasonContext,
    pub race: Race,
}

/// The meeting that the event tracker is about.
#[derive(Default, Debug, Clone, PartialEq, Eq)]
pub struct Race {
    pub meeting_country_name: String,
    pub meeting_start_date: String,
    pub meeting_official_name: String,
    pub meeting_end_date: String,
}

/// The timetables of the current meeting.
#[derive(Default, Debug, Clone, PartialEq, Eq)]
pub struct SeasonContext {
    pub timetables: Vec<Timetable>,
}

/// One session of the timetable.
#[derive(Default, Debug, Clone, PartialEq, Eq)]
pub struct Timetable {
    pub state: String,
    pub session: String,
    pub gmt_offset: String,
    pub description: String,
    pub end_time: String,
    pub start_time: String,
}

/// The drivers championship as the results archive gives it.
#[derive(Default, Debug, Clone, PartialEq, Eq)]
pub struct CurrentDriverStandings {
    pub mrdata: DriversMrdata,
}

/// The constructors championship as the results archive gives it.
#[derive(Default, Debug, Clone, PartialEq, Eq)]
pub struct CurrentConstructorStandings {
    pub mrdata: ConstructorsMrdata,
}

/// The envelope of a drivers standings answer.
#[derive(Default, Debug, Clone, PartialEq, Eq)]
pub struct DriversMrdata {
    pub xmlns: String,
    pub series: String,
    pub url: String,
    pub limit: String,
    pub offset: String,
    pub total: String,
    pub standings_table: DriverStandingsTable,
}

/// The envelope of a constructors standings answer.
#[derive(Default, Debug, Clone, PartialEq, Eq)]
pub struct ConstructorsMrdata {
    pub xmlns: String,
    pub series: String,
    pub url: String,
    pub limit: String,
    pub offset: String,
    pub total: String,
    pub standings_table: ConstructorStandingsTable,
}

/// The drivers standings of one season.
#[derive(Default, Debug, Clone, PartialEq, Eq)]
pub struct DriverStandingsTable {
    pub season: String,
    pub standings_lists: Vec<DriverStandingsList>,
}

/// The constructors standings of one season.
#[derive(Default, Debug, Clone, PartialEq, Eq)]
pub struct ConstructorStandingsTable {
    pub season: String,
    pub standings_lists: Vec<ConstructorStandingsList>,
}

/// The drivers standings after one round.
#[derive(Default, Debug, Clone, PartialEq, Eq)]
pub struct DriverStandingsList {
    pub season: String,
    pub round: String,
    pub driver_standings: Vec<ErgastAPIDriverStanding>,
}

/// The constructors standings after one round.
#[derive(Default, Debug, Clone, PartialEq, Eq)]
pub struct ConstructorStandingsList {
    pub season: String,
    pub round: String,
    pub constructor_standings: Vec<ConstructorStanding>,
}

/// One driver of the championship table.
#[derive(Default, Debug, Clone, PartialEq, Eq)]
pub struct ErgastAPIDriverStanding {
    pub position: String,
    pub position_text: String,
    pub points: String,
    pub wins: String,
    pub driver: Driver,
    pub constructors: Vec<Constructor>,
}

/// A driver as the results archive names them.
#[derive(Default, Debug, Clone, PartialEq, Eq)]
pub struct Driver {
    pub driver_id: String,
    pub permanent_number: String,
    pub code: String,
    pub url: String,
    pub given_name: String,
    pub family_name: String,
    pub date_of_birth: String,
    pub nationality: String,
}

/// A constructor as the results archive names it.
#[derive(Default, Debug, Clone, PartialEq, Eq)]
pub struct Constructor {
    pub constructor_id: String,
    pub url: String,
    pub name: String,
    pub nationality: String,
}

/// One constructor of the championship table.
#[derive(Default, Debug, Clone, PartialEq, Eq)]
pub struct ConstructorStanding {
    pub position: String,
    pub position_text: String,
    pub points: String,
    pub wins: String,
    pub constructor: Constructor,
}

/// The community calendar of one season.
#[derive(Default, Debug, Clone, PartialEq, Eq)]
pub struct CalendarEvents {
    pub races: Vec<CalendarRace>,
}

/// One race weekend of the community calendar.
#[derive(Default, Debug, Clone, PartialEq, Eq)]
pub struct CalendarRace {
    pub name: String,
    pub location: String,
    pub round: i64,
    pub slug: String,
    pub locale_key: String,
    pub tbc: Option<bool>,
    pub sessions: Sessions,
}

/// The start of each session of a race weekend, as the calendar writes it.
#[derive(Default, Debug, Clone, PartialEq, Eq)]
pub struct Sessions {
    pub fp1: String,
    pub fp2: Option<String>,
    pub fp3: Option<String>,
    pub gp: String,
    pub qualifying: String,
    pub sprint: Option<String>,
    pub sprint_qualifying: Option<String>,
}

/// The sessions that a race weekend lists, each under its calendar key, in
/// the order in which they are entered into the schedule.
pub open spec fn session_entries(s: Sessions) -> Seq<(Seq<char>, Seq<char>)> {
    seq![("fp1"@, s.fp1@)] + (match s.fp2 {
        Some(t) => seq![("fp2"@, t@)],
        None => Seq::empty(),
    }) + (match s.fp3 {
        Some(t) => seq![("fp3"@, t@)],
        None => Seq::empty(),
    }) + seq![("qualifying"@, s.qualifying@), ("gp"@, s.gp@)] + (match s.sprint {
        Some(t) => seq![("sprint"@, t@)],
        None => Seq::empty(),
    }) + (match s.sprint_qualifying {
        Some(t) => seq![("sprint_qualifying"@, t@)],
        None => Seq::empty(),
    })
}

/// What a list of keyed texts holds, text by text.
pub open spec fn entries_view(v: Seq<(&'static str, String)>) -> Seq<(Seq<char>, Seq<char>)> {
    Seq::new(v.len(), |i: int| (v[i].0@, v[i].1@))
}

impl Sessions {
    /// The sessions that are set, each with its calendar key.
    pub fn iter(&self) -> (fields: Vec<(&'static str, String)>)
        ensures
            entries_view(fields@) == session_entries(*self),
    {
        let mut fields: Vec<(&'static str, String)> = Vec::new();
        fields.push(("fp1", self.fp1.clone()));
        if let Some(fp2) = &self.fp2 {
            fields.push(("fp2", fp2.clone()));
        }
        if let Some(fp3) = &self.fp3 {
            fields.push(("fp3", fp3.clone()));
        }
        fields.push(("qualifying", self.qualifying.clone()));
        fields.push(("gp", self.gp.clone()));
        if let Some(sprint) = &self.sprint {
            fields.push(("sprint", sprint.clone()));
        }
        if let Some(sprint_qualifying) = &self.sprint_qualifying {
            fields.push(("sprint_qualifying", sprint_qualifying.clone()));
        }
        proof {
            assert(entries_view(fields@) =~= session_entries(*self));
        }
        fields
    }
}

} // verus!
