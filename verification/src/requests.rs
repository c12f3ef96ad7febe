//! The DynamoDB requests that the data services issue.
use vstd::prelude::*;
use vstd::string::StringExecFns;

verus! {

pub const MATCHES_TABLE_NAME: &'static str = "Matches";
pub const LEAGUES_TABLE_NAME: &'static str = "Leagues";
pub const PLAYERS_TABLE_NAME: &'static str = "Players";
pub const PLAYERS_TABLE_TEAM_INDEX: &'static str = "teamId-id-index";
pub const TEAMS_TABLE_NAME: &'static str = "Teams";
pub const TOURNAMENTS_TABLE_NAME: &'static str = "Tournaments";
pub const TOURNAMENTS_INDEX: &'static str = "tournamentId-index";

/// A read of a DynamoDB table. Every key value is a string attribute.
#[derive(Debug)]
pub enum TableRequest {
    /// Every item of `table`, page after page.
    Scan { table: String },
    /// The item of `table` whose key attribute `key_name` is `key_value`.
    GetItem { table: String, key_name: String, key_value: String },
    /// The items of `table` (or of its secondary `index`) that satisfy the
    /// key condition expression `key_condition`, in which the placeholder
    /// `value_name` stands for `value`; page after page.
    Query {
        table: String,
        index: Option<String>,
        key_condition: String,
        value_name: String,
        value: String,
    },
}

/// `r` scans `table`.
pub open spec fn is_scan(r: TableRequest, table: Seq<char>) -> bool {
    r matches TableRequest::Scan { table: t } && t@ == table
}

/// `r` gets the item of `table` whose key `key_name` is `key_value`.
pub open spec fn is_get_item(r: TableRequest, table: Seq<char>, key_name: Seq<char>, key_value: Seq<char>) -> bool {
    r matches TableRequest::GetItem { table: t, key_name: k, key_value: v } && t@ == table && k@ == key_name
        && v@ == key_value
}

/// The view of an optional index name.
pub open spec fn index_view(index: Option<String>) -> Option<Seq<char>> {
    match index {
        Some(i) => Some(i@),
        None => None,
    }
}

/// `r` queries `table` (through `index`, if any) for the items whose
/// attribute `attribute` equals `value`, bound to the placeholder
/// `value_name` that the key condition `attribute = value_name` names.
pub open spec fn is_equality_query(
    r: TableRequest,
    table: Seq<char>,
    index: Option<Seq<char>>,
    attribute: Seq<char>,
    value_name: Seq<char>,
    value: Seq<char>,
) -> bool {
    r matches TableRequest::Query { table: t, index: i, key_condition: c, value_name: n, value: v }
        && t@ == table && index_view(i) == index && c@ == attribute + " = "@ + value_name
        && n@ == value_name && v@ == value
}

fn scan(table: &str) -> (r: TableRequest)
    ensures
        is_scan(r, table@),
{
    TableRequest::Scan { table: String::from_str(table) }
}

fn get_item(table: &str, key_name: &str, key_value: String) -> (r: TableRequest)
    ensures
        is_get_item(r, table@, key_name@, key_value@),
{
    TableRequest::GetItem {
        table: String::from_str(table),
        key_name: String::from_str(key_name),
        key_value,
    }
}

fn equality_query(
    table: &str,
    index: Option<&str>,
    attribute: &str,
    value_name: &str,
    value: String,
) -> (r: TableRequest)
    ensures
        is_equality_query(
            r,
            table@,
            match index {
                Some(i) => Some(i@),
                None => None,
            },
            attribute@,
            value_name@,
            value@,
        ),
{
    let mut key_condition = String::from_str(attribute);
    key_condition.append(" = ");
    key_condition.append(value_name);
    let index = match index {
        Some(i) => Some(String::from_str(i)),
        None => None,
    };
    TableRequest::Query {
        table: String::from_str(table),
        index,
        key_condition,
        value_name: String::from_str(value_name),
        value,
    }
}

/// All leagues.
pub fn all_leagues_request() -> (r: TableRequest)
    ensures
        is_scan(r, LEAGUES_TABLE_NAME@),
{
    scan(LEAGUES_TABLE_NAME)
}

/// The league `league_id`.
pub fn league_request(league_id: String) -> (r: TableRequest)
    ensures
        is_get_item(r, LEAGUES_TABLE_NAME@, "leagueId"@, league_id@),
{
    get_item(LEAGUES_TABLE_NAME, "leagueId", league_id)
}

/// The matches of the tournament `tournament_id`.
pub fn matches_for_tournament_request(tournament_id: String) -> (r: TableRequest)
    ensures
        is_equality_query(r, MATCHES_TABLE_NAME@, None, "tournamentId"@, ":desiredTourney"@, tournament_id@),
{
    equality_query(MATCHES_TABLE_NAME, None, "tournamentId", ":desiredTourney", tournament_id)
}

/// The players of the team `team_id`, through the players' team index.
pub fn players_on_team_request(team_id: String) -> (r: TableRequest)
    ensures
        is_equality_query(
            r,
            PLAYERS_TABLE_NAME@,
            Some(PLAYERS_TABLE_TEAM_INDEX@),
            "teamId"@,
            ":desiredTeam"@,
            team_id@,
        ),
{
    equality_query(PLAYERS_TABLE_NAME, Some(PLAYERS_TABLE_TEAM_INDEX), "teamId", ":desiredTeam", team_id)
}

/// The team `team_id`.
pub fn team_request(team_id: String) -> (r: TableRequest)
    ensures
        is_get_item(r, TEAMS_TABLE_NAME@, "teamId"@, team_id@),
{
    get_item(TEAMS_TABLE_NAME, "teamId", team_id)
}

/// All teams.
pub fn all_teams_request() -> (r: TableRequest)
    ensures
        is_scan(r, TEAMS_TABLE_NAME@),
{
    scan(TEAMS_TABLE_NAME)
}

/// The tournaments of the league `league_id`.
pub fn tournaments_for_league_request(league_id: String) -> (r: TableRequest)
    ensures
        is_equality_query(r, TOURNAMENTS_TABLE_NAME@, None, "leagueId"@, ":desiredLeague"@, league_id@),
{
    equality_query(TOURNAMENTS_TABLE_NAME, None, "leagueId", ":desiredLeague", league_id)
}

/// The tournament `tournament_id`, through the tournaments' id index; the
/// service reads only the first item that comes back.
pub fn tournament_request(tournament_id: String) -> (r: TableRequest)
    ensures
        is_equality_query(
            r,
            TOURNAMENTS_TABLE_NAME@,
            Some(TOURNAMENTS_INDEX@),
            "tournamentId"@,
            ":desiredTournament"@,
            tournament_id@,
        ),
{
    equality_query(TOURNAMENTS_TABLE_NAME, Some(TOURNAMENTS_INDEX), "tournamentId", ":desiredTournament", tournament_id)
}

/// All tournaments.
pub fn all_tournaments_request() -> (r: TableRequest)
    ensures
        is_scan(r, TOURNAMENTS_TABLE_NAME@),
{
    scan(TOURNAMENTS_TABLE_NAME)
}

} // verus!
