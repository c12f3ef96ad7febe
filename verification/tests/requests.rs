use lol_esports_server::requests::{
    all_leagues_request, all_teams_request, all_tournaments_request, league_request,
    matches_for_tournament_request, players_on_team_request, team_request,
    tournament_request, tournaments_for_league_request, TableRequest,
};

fn scanned_table(r: TableRequest) -> String {
    match r {
        TableRequest::Scan { table } => table,
        other => panic!("not a scan: {:?}", other),
    }
}

#[test]
fn scans_name_their_tables() {
    assert_eq!(scanned_table(all_leagues_request()), "Leagues");
    assert_eq!(scanned_table(all_teams_request()), "Teams");
    assert_eq!(scanned_table(all_tournaments_request()), "Tournaments");
}

#[test]
fn item_reads_use_the_id_keys() {
    match league_request("lck".to_string()) {
        TableRequest::GetItem { table, key_name, key_value } => {
            assert_eq!(table, "Leagues");
            assert_eq!(key_name, "leagueId");
            assert_eq!(key_value, "lck");
        }
        other => panic!("unexpected {:?}", other),
    }
    match team_request("t1".to_string()) {
        TableRequest::GetItem { table, key_name, key_value } => {
            assert_eq!(table, "Teams");
            assert_eq!(key_name, "teamId");
            assert_eq!(key_value, "t1");
        }
        other => panic!("unexpected {:?}", other),
    }
}

#[test]
fn queries_bind_their_placeholders() {
    match matches_for_tournament_request("worlds-2023".to_string()) {
        TableRequest::Query { table, index, key_condition, value_name, value } => {
            assert_eq!(table, "Matches");
            assert_eq!(index, None);
            assert_eq!(key_condition, "tournamentId = :desiredTourney");
            assert_eq!(value_name, ":desiredTourney");
            assert_eq!(value, "worlds-2023");
        }
        other => panic!("unexpected {:?}", other),
    }
    match players_on_team_request("t1".to_string()) {
        TableRequest::Query { table, index, key_condition, value_name, value } => {
            assert_eq!(table, "Players");
            assert_eq!(index.as_deref(), Some("teamId-id-index"));
            assert_eq!(key_condition, "teamId = :desiredTeam");
            assert_eq!(value_name, ":desiredTeam");
            assert_eq!(value, "t1");
        }
        other => panic!("unexpected {:?}", other),
    }
    match tournaments_for_league_request("lec".to_string()) {
        TableRequest::Query { table, index, key_condition, value_name, value } => {
            assert_eq!(table, "Tournaments");
            assert_eq!(index, None);
            assert_eq!(key_condition, "leagueId = :desiredLeague");
            assert_eq!(value_name, ":desiredLeague");
            assert_eq!(value, "lec");
        }
        other => panic!("unexpected {:?}", other),
    }
    match tournament_request("msi-2024".to_string()) {
        TableRequest::Query { table, index, key_condition, value_name, value } => {
            assert_eq!(table, "Tournaments");
            assert_eq!(index.as_deref(), Some("tournamentId-index"));
            assert_eq!(key_condition, "tournamentId = :desiredTournament");
            assert_eq!(value_name, ":desiredTournament");
            assert_eq!(value, "msi-2024");
        }
        other => panic!("unexpected {:?}", other),
    }
}
