//! Tournaments and their calendar.
use crate::dates::{
    date_text, days_from_ce, is_valid_date, is_within_days, parse_date, parsed_date, today_days, within_days, MAX_DATE_DAYS,
    MIN_DATE_DAYS, TOURNEY_DATE_FORMAT, UNIX_EPOCH_DAYS,
};
use vstd::prelude::*;

verus! {

/// A tournament record as the data layer stores it.
#[derive(Debug)]
pub struct Tournament {
    pub league_id: String,
    pub tournament_id: String,
    /// The first day, written `%Y-%m-%d`.
    pub start_date: Option<String>,
    /// The last day, written `%Y-%m-%d`.
    pub end_date: Option<String>,
    pub is_official: Option<bool>,
    pub is_playoffs: Option<bool>,
    pub is_qualifier: Option<bool>,
}

/// The day that a date field holds, if it is present and parses.
pub open spec fn field_date(field: Option<String>) -> Option<i32> {
    match field {
        Some(text) => parsed_date(text@, TOURNEY_DATE_FORMAT@),
        None => None,
    }
}

/// The tournament's first day, if known.
pub open spec fn start_of(t: Tournament) -> Option<i32> {
    field_date(t.start_date)
}

/// The tournament's last day, if known.
pub open spec fn end_of(t: Tournament) -> Option<i32> {
    field_date(t.end_date)
}

/// The tournament runs on `today`, its first and last day included; an
/// unknown first or last day counts as the earliest representable date.
pub open spec fn ongoing_on(t: Tournament, today: int) -> bool {
    within_days(start_of(t), end_of(t), today)
}

/// A date field written `YYYY-MM-DD` holds the day number of that date
/// when it is a calendar date of the years 1 to 9999, and no day when it is
/// not a date.
pub open spec fn reads_written_date(field: Option<String>, r: Option<i32>) -> bool {
    forall|y: int, m: int, d: int|
        field matches Some(text) && 1 <= y <= 9999 && 0 <= m <= 99 && 0 <= d <= 99 && text@
            == #[trigger] date_text(y, m, d) ==> r == (if is_valid_date(y, m, d) {
            Some(days_from_ce(y, m, d) as i32)
        } else {
            None
        })
}

/// Calendar questions about a tournament.
pub trait TournamentExt {
    /// The first day, if the record holds one that parses.
    fn start_date(&self) -> Option<i32>;

    /// The last day, if the record holds one that parses.
    fn end_date(&self) -> Option<i32>;

    /// Whether the tournament runs today (UTC).
    fn is_ongoing(&self) -> bool;
}

fn parse_field(field: &Option<String>) -> (r: Option<i32>)
    ensures
        r == field_date(*field),
        r matches Some(d) ==> MIN_DATE_DAYS <= d <= MAX_DATE_DAYS,
        reads_written_date(*field, r),
{
    match field {
        Some(text) => parse_date(text.as_str(), TOURNEY_DATE_FORMAT),
        None => None,
    }
}

impl Tournament {
    /// Whether the tournament runs on the day `today`.
    pub fn is_ongoing_on(&self, today: i32) -> (r: bool)
        ensures
            r == ongoing_on(*self, today as int),
    {
        is_within_days(parse_field(&self.start_date), parse_field(&self.end_date), today)
    }
}

impl TournamentExt for Tournament {
    fn start_date(&self) -> (r: Option<i32>)
        ensures
            r == start_of(*self),
            r matches Some(d) ==> MIN_DATE_DAYS <= d <= MAX_DATE_DAYS,
            reads_written_date(self.start_date, r),
    {
        parse_field(&self.start_date)
    }

    fn end_date(&self) -> (r: Option<i32>)
        ensures
            r == end_of(*self),
            r matches Some(d) ==> MIN_DATE_DAYS <= d <= MAX_DATE_DAYS,
            reads_written_date(self.end_date, r),
    {
        parse_field(&self.end_date)
    }

    fn is_ongoing(&self) -> (r: bool)
        ensures
            exists|today: int|
                UNIX_EPOCH_DAYS <= today <= MAX_DATE_DAYS && r == ongoing_on(*self, today),
    {
        let today = today_days();
        self.is_ongoing_on(today)
    }
}

/// A tournament with no known last day is not running on any day after the
/// earliest representable date, in particular on no day the clock can show.
pub proof fn no_end_date_never_ongoing(t: Tournament, today: int)
    requires
        end_of(t) is None,
        today > MIN_DATE_DAYS,
    ensures
        !ongoing_on(t, today),
{
}

} // verus!
