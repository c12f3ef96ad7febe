use lol_esports_server::dates::{
    earliest_date_days, parse_date, today_days, MAX_DATE_DAYS, MIN_DATE_DAYS, TOURNEY_DATE_FORMAT,
    UNIX_EPOCH_DAYS,
};

#[test]
fn parses_tournament_dates_as_day_numbers() {
    assert_eq!(parse_date("2015-09-05", TOURNEY_DATE_FORMAT), Some(735846));
    assert_eq!(parse_date("1970-01-01", TOURNEY_DATE_FORMAT), Some(UNIX_EPOCH_DAYS));
    assert_eq!(parse_date("0001-01-01", TOURNEY_DATE_FORMAT), Some(1));
}

#[test]
fn rejects_malformed_dates() {
    assert_eq!(parse_date("2015/09/05", TOURNEY_DATE_FORMAT), None);
    assert_eq!(parse_date("2015-02-30", TOURNEY_DATE_FORMAT), None);
    assert_eq!(parse_date("", TOURNEY_DATE_FORMAT), None);
    assert_eq!(parse_date("soon", TOURNEY_DATE_FORMAT), None);
}

#[test]
fn earliest_date_is_chronos_minimum() {
    assert_eq!(earliest_date_days(), MIN_DATE_DAYS);
    assert_eq!(earliest_date_days(), -95746129);
}

#[test]
fn today_is_after_the_epoch() {
    let today = today_days();
    assert!(today >= UNIX_EPOCH_DAYS);
    assert!(today <= MAX_DATE_DAYS);
}

use lol_esports_server::dates::{is_strictly_within_days, is_within_days, starts_within_a_week};

#[test]
fn within_days_includes_both_bounds() {
    assert!(is_within_days(Some(10), Some(20), 10));
    assert!(is_within_days(Some(10), Some(20), 20));
    assert!(!is_within_days(Some(10), Some(20), 21));
    assert!(!is_within_days(Some(10), Some(20), 9));
}

#[test]
fn missing_bounds_stand_for_the_earliest_date() {
    assert!(is_within_days(None, Some(20), 5));
    assert!(!is_within_days(Some(10), None, 15));
    assert!(is_within_days(None, None, MIN_DATE_DAYS));
    assert!(!is_within_days(None, None, MIN_DATE_DAYS + 1));
}

#[test]
fn strictly_within_excludes_bounds_and_unknowns() {
    assert!(is_strictly_within_days(Some(10), Some(20), 15));
    assert!(!is_strictly_within_days(Some(10), Some(20), 10));
    assert!(!is_strictly_within_days(Some(10), Some(20), 20));
    assert!(!is_strictly_within_days(None, Some(20), 15));
    assert!(!is_strictly_within_days(Some(10), None, 15));
}

#[test]
fn starts_within_a_week_looks_seven_days_ahead() {
    assert!(starts_within_a_week(Some(106), 100));
    assert!(!starts_within_a_week(Some(107), 100));
    assert!(starts_within_a_week(Some(50), 100));
    assert!(!starts_within_a_week(None, 100));
}
