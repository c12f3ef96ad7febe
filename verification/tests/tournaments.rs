use color_eyre::Report;
use lol_esports_server::dates::{parse_date, MIN_DATE_DAYS, TOURNEY_DATE_FORMAT};
use lol_esports_server::error::LolEsportsApiError;
use lol_esports_server::selection::{
    collect_items, is_world_championship, league_lookup, most_recent_tournament,
    ongoing_tournaments, or_internal_error, select_most_recent_tournament,
    select_ongoing_tournaments, team_lookup, tournament_lookup, week_before_start_is_defined,
};
use lol_esports_server::tournament::{Tournament, TournamentExt};

fn tourney(id: &str, start: Option<&str>, end: Option<&str>, official: Option<bool>) -> Tournament {
    Tournament {
        league_id: "lck".to_string(),
        tournament_id: id.to_string(),
        start_date: start.map(|s| s.to_string()),
        end_date: end.map(|s| s.to_string()),
        is_official: official,
        is_playoffs: None,
        is_qualifier: None,
    }
}

fn day(text: &str) -> i32 {
    parse_date(text, TOURNEY_DATE_FORMAT).unwrap()
}

fn ids(ts: &[Tournament]) -> Vec<String> {
    ts.iter().map(|t| t.tournament_id.clone()).collect()
}

#[test]
fn start_and_end_dates_parse() {
    let t = tourney("a", Some("2023-01-10"), Some("2023-03-01"), None);
    assert_eq!(t.start_date(), Some(738530));
    assert_eq!(t.end_date(), Some(738580));
    let blank = tourney("b", None, Some("not a date"), None);
    assert_eq!(blank.start_date(), None);
    assert_eq!(blank.end_date(), None);
}

#[test]
fn ongoing_includes_first_and_last_day() {
    let t = tourney("a", Some("2023-01-10"), Some("2023-03-01"), None);
    assert!(t.is_ongoing_on(day("2023-01-10")));
    assert!(t.is_ongoing_on(day("2023-02-01")));
    assert!(t.is_ongoing_on(day("2023-03-01")));
    assert!(!t.is_ongoing_on(day("2023-01-09")));
    assert!(!t.is_ongoing_on(day("2023-03-02")));
}

#[test]
fn missing_start_counts_as_earliest_day() {
    let t = tourney("a", None, Some("2023-03-01"), None);
    assert!(t.is_ongoing_on(day("1999-01-01")));
    assert!(t.is_ongoing_on(MIN_DATE_DAYS));
}

#[test]
fn missing_end_is_never_ongoing_after_the_earliest_day() {
    let t = tourney("a", Some("2023-01-10"), None, None);
    assert!(!t.is_ongoing_on(day("2023-02-01")));
    let open = tourney("b", None, None, None);
    assert!(open.is_ongoing_on(MIN_DATE_DAYS));
    assert!(!open.is_ongoing_on(MIN_DATE_DAYS + 1));
    assert!(!open.is_ongoing());
}

#[test]
fn is_ongoing_uses_the_clock() {
    let t = tourney("a", Some("1970-01-01"), Some("9999-12-31"), None);
    assert!(t.is_ongoing());
    let past = tourney("b", Some("2001-01-01"), Some("2001-12-31"), None);
    assert!(!past.is_ongoing());
}

#[test]
fn collect_keeps_order_when_all_succeed() {
    let items: Vec<Result<u32, Report>> = vec![Ok(3), Ok(1), Ok(2)];
    assert_eq!(collect_items(items).unwrap(), vec![3, 1, 2]);
    let none: Vec<Result<u32, Report>> = vec![];
    assert_eq!(collect_items(none).unwrap(), Vec::<u32>::new());
}

#[test]
fn collect_stops_at_first_failure() {
    let items: Vec<Result<u32, Report>> =
        vec![Ok(1), Err(Report::msg("first")), Ok(2), Err(Report::msg("second"))];
    match collect_items(items) {
        Err(LolEsportsApiError::InternalError { message: None, e }) => assert_eq!(e.to_string(), "first"),
        other => panic!("unexpected {:?}", other),
    }
}

#[test]
fn or_internal_error_passes_values() {
    let ok: Result<u32, Report> = Ok(7);
    assert_eq!(or_internal_error(ok).unwrap(), 7);
    let err: Result<u32, Report> = Err(Report::msg("down"));
    let answer = or_internal_error(err).unwrap_err();
    assert_eq!(answer.status_code(), 500);
}

#[test]
fn lookups_answer_not_found_with_their_messages() {
    let found: Result<Option<u32>, Report> = Ok(Some(5));
    assert_eq!(league_lookup(found, "lck").unwrap(), 5);

    let league = league_lookup::<u32>(Ok(None), "lck").unwrap_err();
    assert!(matches!(&league, LolEsportsApiError::NotFound { message } if message == "leagueId 'lck' does not exist"));
    assert_eq!(league.status_code(), 404);

    let team = team_lookup::<u32>(Ok(None), "t1").unwrap_err();
    assert!(matches!(&team, LolEsportsApiError::NotFound { message } if message == "Could not find team with id t1"));

    let tournament = tournament_lookup::<u32>(Ok(None), "msi").unwrap_err();
    assert!(matches!(&tournament, LolEsportsApiError::NotFound { message } if message == "Tournament with id msi not found"));

    let failed = team_lookup::<u32>(Err(Report::msg("down")), "t1").unwrap_err();
    assert!(matches!(failed, LolEsportsApiError::InternalError { .. }));
}

#[test]
fn ongoing_selection_is_strict_and_ordered() {
    let today = day("2023-02-01");
    let items: Vec<Result<Tournament, Report>> = vec![
        Ok(tourney("running", Some("2023-01-10"), Some("2023-03-01"), None)),
        Ok(tourney("starts-today", Some("2023-02-01"), Some("2023-03-01"), None)),
        Ok(tourney("ends-today", Some("2023-01-01"), Some("2023-02-01"), None)),
        Ok(tourney("no-dates", None, None, None)),
        Ok(tourney("also-running", Some("2022-12-01"), Some("2023-12-01"), None)),
    ];
    let selected = select_ongoing_tournaments(items, today).unwrap();
    assert_eq!(ids(&selected), vec!["running", "also-running"]);
    for t in &selected {
        assert!(t.is_ongoing_on(today));
    }
}

#[test]
fn ongoing_selection_reports_failures() {
    let items: Vec<Result<Tournament, Report>> = vec![
        Ok(tourney("skipped", None, None, None)),
        Err(Report::msg("page failed")),
    ];
    match select_ongoing_tournaments(items, day("2023-02-01")) {
        Err(LolEsportsApiError::InternalError { e, .. }) => assert_eq!(e.to_string(), "page failed"),
        other => panic!("unexpected {:?}", other),
    }
}

#[test]
fn ongoing_tournaments_reads_the_clock() {
    let items: Vec<Result<Tournament, Report>> = vec![
        Ok(tourney("forever", Some("1970-01-01"), Some("9999-12-31"), None)),
        Ok(tourney("ancient", Some("1990-01-01"), Some("1990-02-01"), None)),
    ];
    assert_eq!(ids(&ongoing_tournaments(items).unwrap()), vec!["forever"]);
}

#[test]
fn world_championship_is_recognized_in_any_case() {
    assert!(is_world_championship("wcs"));
    assert!(is_world_championship("WCS"));
    assert!(is_world_championship("wCs"));
    assert!(!is_world_championship("wcs2"));
    assert!(!is_world_championship("lck"));
    assert!(!is_world_championship(""));
    assert!(!is_world_championship("ẃcs"));
}

#[test]
fn most_recent_prefers_a_running_tournament() {
    let today = day("2023-02-01");
    let items: Vec<Result<Tournament, Report>> = vec![
        Ok(tourney("finished", Some("2022-01-01"), Some("2022-02-01"), None)),
        Ok(tourney("running", Some("2023-01-10"), Some("2023-03-01"), None)),
        Ok(tourney("also-running", Some("2023-01-11"), Some("2023-03-01"), None)),
    ];
    let found = select_most_recent_tournament("lck", items, today).unwrap().unwrap();
    assert_eq!(found.tournament_id, "running");
}

#[test]
fn most_recent_falls_back_to_first_candidate() {
    let today = day("2023-02-01");
    let items: Vec<Result<Tournament, Report>> = vec![
        Ok(tourney("no-start", None, Some("2023-03-01"), None)),
        Ok(tourney("finished", Some("2022-01-01"), Some("2022-02-01"), None)),
        Ok(tourney("older", Some("2021-01-01"), Some("2021-02-01"), None)),
    ];
    let found = select_most_recent_tournament("lck", items, today).unwrap().unwrap();
    assert_eq!(found.tournament_id, "finished");
}

#[test]
fn most_recent_looks_a_week_ahead() {
    let today = day("2023-02-01");
    let soon = vec![Ok(tourney("in-six-days", Some("2023-02-07"), Some("2023-03-01"), None))];
    let found = select_most_recent_tournament("lck", soon, today).unwrap().unwrap();
    assert_eq!(found.tournament_id, "in-six-days");
    let later = vec![Ok(tourney("in-a-week", Some("2023-02-08"), Some("2023-03-01"), None))];
    assert!(select_most_recent_tournament("lck", later, today).unwrap().is_none());
}

#[test]
fn world_championship_only_counts_official_tournaments() {
    let today = day("2023-02-01");
    let items = || -> Vec<Result<Tournament, Report>> {
        vec![
            Ok(tourney("showmatch", Some("2023-01-10"), Some("2023-03-01"), Some(false))),
            Ok(tourney("unmarked", Some("2023-01-10"), Some("2023-03-01"), None)),
            Ok(tourney("worlds", Some("2022-09-29"), Some("2022-11-05"), Some(true))),
        ]
    };
    let wcs = select_most_recent_tournament("WCS", items(), today).unwrap().unwrap();
    assert_eq!(wcs.tournament_id, "worlds");
    let other = select_most_recent_tournament("lck", items(), today).unwrap().unwrap();
    assert_eq!(other.tournament_id, "showmatch");
}

#[test]
fn most_recent_reports_the_first_failure() {
    let items: Vec<Result<Tournament, Report>> = vec![
        Ok(tourney("running", Some("2023-01-10"), Some("2023-03-01"), None)),
        Err(Report::msg("scan failed")),
    ];
    match select_most_recent_tournament("lck", items, day("2023-02-01")) {
        Err(LolEsportsApiError::InternalError { e, .. }) => assert_eq!(e.to_string(), "scan failed"),
        other => panic!("unexpected {:?}", other),
    }
}

#[test]
fn most_recent_refuses_a_start_within_a_week_of_the_earliest_date() {
    let edge = || -> Vec<Result<Tournament, Report>> {
        vec![Ok(tourney("edge", Some("-262143-01-03"), Some("2023-03-01"), None))]
    };
    assert!(!week_before_start_is_defined("lck", &edge()));
    assert!(most_recent_tournament("lck", edge()).is_none());
    let after_failure: Vec<Result<Tournament, Report>> = vec![
        Err(Report::msg("scan failed")),
        Ok(tourney("edge", Some("-262143-01-03"), Some("2023-03-01"), None)),
    ];
    assert!(week_before_start_is_defined("lck", &after_failure));
    let filtered = vec![Ok(tourney("edge", Some("-262143-01-03"), Some("2023-03-01"), Some(false)))];
    assert!(week_before_start_is_defined("wcs", &filtered));
}

#[test]
fn most_recent_tournament_reads_the_clock() {
    let items: Vec<Result<Tournament, Report>> = vec![
        Ok(tourney("past", Some("1990-01-01"), Some("1990-02-01"), None)),
        Ok(tourney("forever", Some("1970-01-01"), Some("9999-12-31"), None)),
    ];
    let found = most_recent_tournament("lck", items).unwrap().unwrap().unwrap();
    assert_eq!(found.tournament_id, "forever");
}
