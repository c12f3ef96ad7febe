//! Calendar days as the service sees them.
//!
//! A calendar day is carried as its number of days from the common era
//! (January 1 of year 1 is day 1), which is how `chrono::NaiveDate` counts
//! them. That count is one-to-one with `NaiveDate` and orders days as
//! `NaiveDate` does, so every comparison the service makes on dates is a
//! comparison of these integers.
use chrono::{Datelike, NaiveDate, Utc};
use vstd::prelude::*;
use vstd::string::StrSliceExecFns;

verus! {

/// The format of the `startDate` and `endDate` fields of a tournament.
pub const TOURNEY_DATE_FORMAT: &'static str = "%Y-%m-%d";

/// Day number of `NaiveDate::MIN` (January 1, 262144 BCE).
pub const MIN_DATE_DAYS: i32 = -95746129i32;

/// Day number of `NaiveDate::MAX` (December 31, 262142 CE).
pub const MAX_DATE_DAYS: i32 = 95745399i32;

/// Day number of January 1, 1970.
pub const UNIX_EPOCH_DAYS: i32 = 719163i32;

/// What `NaiveDate::parse_from_str(text, format)` yields, as a day number.
pub uninterp spec fn parsed_date(text: Seq<char>, format: Seq<char>) -> Option<i32>;

/// Year `y` of the proleptic Gregorian calendar is a leap year.
pub open spec fn is_leap_year(y: int) -> bool {
    y % 4 == 0 && (y % 100 != 0 || y % 400 == 0)
}

/// The number of days of month `m` of year `y`.
pub open spec fn days_in_month(y: int, m: int) -> int {
    if m == 2 {
        if is_leap_year(y) { 29 } else { 28 }
    } else if m == 4 || m == 6 || m == 9 || m == 11 {
        30
    } else {
        31
    }
}

/// `y-m-d` is a calendar date of the years 1 to 9999.
pub open spec fn is_valid_date(y: int, m: int, d: int) -> bool {
    1 <= y <= 9999 && 1 <= m <= 12 && 1 <= d <= days_in_month(y, m)
}

/// The days of year `y` before the first of month `m`.
pub open spec fn days_before_month(y: int, m: int) -> int {
    let common: int = if m <= 1 {
        0
    } else if m == 2 {
        31
    } else if m == 3 {
        59
    } else if m == 4 {
        90
    } else if m == 5 {
        120
    } else if m == 6 {
        151
    } else if m == 7 {
        181
    } else if m == 8 {
        212
    } else if m == 9 {
        243
    } else if m == 10 {
        273
    } else if m == 11 {
        304
    } else {
        334
    };
    if m > 2 && is_leap_year(y) { common + 1 } else { common }
}

/// The number of `y-m-d` counted from January 1 of year 1 as day 1, for a
/// year `y >= 1`: the days of the whole years before it, then the days of
/// its months before `m`, then `d`.
pub open spec fn days_from_ce(y: int, m: int, d: int) -> int {
    let p = y - 1;
    365 * p + p / 4 - p / 100 + p / 400 + days_before_month(y, m) + d
}

/// The decimal digit for `n` (`0 <= n < 10`).
pub open spec fn digit_char(n: int) -> char {
    (('0' as int) + n) as char
}

/// `y-m-d` written as `%Y-%m-%d` writes it for a year of four digits:
/// `YYYY-MM-DD`.
pub open spec fn date_text(y: int, m: int, d: int) -> Seq<char> {
    seq![
        digit_char(y / 1000),
        digit_char((y / 100) % 10),
        digit_char((y / 10) % 10),
        digit_char(y % 10),
        '-',
        digit_char(m / 10),
        digit_char(m % 10),
        '-',
        digit_char(d / 10),
        digit_char(d % 10),
    ]
}

/// Day numbers count the days of the calendar one by one: January 1 of
/// year 1 is day 1, January 1, 1970 is the Unix epoch day, and the day after
/// any date of the years 1 to 9999 (the next day of the month, the first of
/// the next month, or January 1 of the next year) has the next number.
pub proof fn day_numbers_count_consecutive_days(y: int, m: int, d: int)
    requires
        is_valid_date(y, m, d),
    ensures
        days_from_ce(1, 1, 1) == 1,
        days_from_ce(1970, 1, 1) == UNIX_EPOCH_DAYS,
        d < days_in_month(y, m) ==> days_from_ce(y, m, d + 1) == days_from_ce(y, m, d) + 1,
        d == days_in_month(y, m) && m < 12 ==> days_from_ce(y, m + 1, 1) == days_from_ce(y, m, d) + 1,
        d == days_in_month(y, m) && m == 12 ==> days_from_ce(y + 1, 1, 1) == days_from_ce(y, m, d) + 1,
{
    let p = y - 1;
    assert((p + 1) / 4 - p / 4 == (if y % 4 == 0 { 1int } else { 0 }));
    assert((p + 1) / 100 - p / 100 == (if y % 100 == 0 { 1int } else { 0 }));
    assert((p + 1) / 400 - p / 400 == (if y % 400 == 0 { 1int } else { 0 }));
}

/// Parses `text` with the strftime-style `format` through
/// `chrono::NaiveDate::parse_from_str`, and gives the parsed day as its
/// number of days from the common era (`Datelike::num_days_from_ce`).
/// A parse error gives `None`.
///
/// The contract names the result (`parsed_date`), adds what chrono's
/// documentation promises of every `NaiveDate` (it lies between
/// `NaiveDate::MIN` and `NaiveDate::MAX`), and states what chrono's parser
/// (`format::parse`: `%Y` reads four digits when no sign comes first, `%m`
/// and `%d` two, the fields are range-checked and the date validated) and
/// `num_days_from_ce` (the day count documented on `Datelike`) make of a
/// text of the form `YYYY-MM-DD` under the format `%Y-%m-%d`: the day number
/// of that date when it is a date, `None` otherwise.
#[verifier::external_body]
fn chrono_parse_date(text: &str, format: &str) -> (r: Option<i32>)
    ensures
        r == parsed_date(text@, format@),
        r matches Some(d) ==> MIN_DATE_DAYS <= d <= MAX_DATE_DAYS,
        forall|y: int, m: int, d: int|
            format@ == TOURNEY_DATE_FORMAT@ && 1 <= y <= 9999 && 0 <= m <= 99 && 0 <= d <= 99
                && text@ == #[trigger] date_text(y, m, d) ==> r == (if is_valid_date(y, m, d) {
                Some(days_from_ce(y, m, d) as i32)
            } else {
                None
            }),
{
    match NaiveDate::parse_from_str(text, format) {
        Ok(date) => Some(date.num_days_from_ce()),
        Err(_) => None,
    }
}

/// Whether `format` is the tournament date format `%Y-%m-%d`.
fn is_tourney_format(format: &str) -> (r: bool)
    ensures
        r == (format@ == TOURNEY_DATE_FORMAT@),
{
    proof {
        reveal_strlit("%Y-%m-%d");
    }
    let n = format.unicode_len();
    if n != 8 {
        return false;
    }
    let mut i: usize = 0;
    while i < 8
        invariant
            format@.len() == 8,
            TOURNEY_DATE_FORMAT@ == "%Y-%m-%d"@,
            "%Y-%m-%d"@ =~= seq!['%', 'Y', '-', '%', 'm', '-', '%', 'd'],
            0 <= i <= 8,
            forall|j: int| 0 <= j < i ==> format@[j] == TOURNEY_DATE_FORMAT@[j],
        decreases 8 - i,
    {
        let expected = if i == 0 || i == 3 || i == 6 {
            '%'
        } else if i == 1 {
            'Y'
        } else if i == 2 || i == 5 {
            '-'
        } else if i == 4 {
            'm'
        } else {
            'd'
        };
        if format.get_char(i) != expected {
            return false;
        }
        i += 1;
    }
    assert(format@ =~= TOURNEY_DATE_FORMAT@);
    true
}

/// The value of a decimal digit character.
fn digit_value(c: char) -> (r: Option<i32>)
    ensures
        match r {
            Some(v) => 0 <= v <= 9 && c == digit_char(v as int),
            None => !('0' <= c && c <= '9'),
        },
{
    if '0' <= c && c <= '9' {
        let v = (c as u32 - 48) as i32;
        Some(v)
    } else {
        None
    }
}

proof fn lemma_digit_char(n: int)
    requires
        0 <= n <= 9,
    ensures
        '0' <= digit_char(n) <= '9',
        digit_char(n) as int == ('0' as int) + n,
{
}

proof fn lemma_four_digits(a: int, b: int, c: int, e: int)
    requires
        0 <= a <= 9,
        0 <= b <= 9,
        0 <= c <= 9,
        0 <= e <= 9,
    ensures
        (a * 1000 + b * 100 + c * 10 + e) / 1000 == a,
        ((a * 1000 + b * 100 + c * 10 + e) / 100) % 10 == b,
        ((a * 1000 + b * 100 + c * 10 + e) / 10) % 10 == c,
        (a * 1000 + b * 100 + c * 10 + e) % 10 == e,
{
}

proof fn lemma_two_digits(a: int, b: int)
    requires
        0 <= a <= 9,
        0 <= b <= 9,
    ensures
        (a * 10 + b) / 10 == a,
        (a * 10 + b) % 10 == b,
{
}

proof fn lemma_digits_of(y: int, m: int, d: int)
    requires
        0 <= y <= 9999,
        0 <= m <= 99,
        0 <= d <= 99,
    ensures
        0 <= y / 1000 <= 9,
        0 <= (y / 100) % 10 <= 9,
        0 <= (y / 10) % 10 <= 9,
        0 <= y % 10 <= 9,
        0 <= m / 10 <= 9,
        0 <= m % 10 <= 9,
        0 <= d / 10 <= 9,
        0 <= d % 10 <= 9,
{
}

/// The year, month and day that a text of the form `YYYY-MM-DD` writes.
fn split_date_text(text: &str) -> (r: Option<(i32, i32, i32)>)
    ensures
        match r {
            Some((y, m, d)) => 0 <= y <= 9999 && 0 <= m <= 99 && 0 <= d <= 99
                && text@ == date_text(y as int, m as int, d as int),
            None => forall|y: int, m: int, d: int|
                0 <= y <= 9999 && 0 <= m <= 99 && 0 <= d <= 99 ==> text@ != #[trigger] date_text(y, m, d),
        },
{
    if text.unicode_len() != 10 {
        return None;
    }
    let ghost t = text@;
    let mut digits: Vec<i32> = Vec::new();
    let mut i: usize = 0;
    while i < 10
        invariant
            t == text@,
            t.len() == 10,
            0 <= i <= 10,
            digits@.len() == i,
            forall|j: int|
                0 <= j < i ==> 0 <= #[trigger] digits@[j] <= 9 && (j != 4 && j != 7 ==> t[j] == digit_char(
                    digits@[j] as int,
                )),
        decreases 10 - i,
    {
        if i == 4 || i == 7 {
            digits.push(0);
        } else {
            match digit_value(text.get_char(i)) {
                Some(v) => digits.push(v),
                None => {
                    let ghost k = i as int;
                    assert forall|y: int, m: int, d: int|
                        0 <= y <= 9999 && 0 <= m <= 99 && 0 <= d <= 99 implies t != #[trigger] date_text(y, m, d) by {
                        lemma_digits_of(y, m, d);
                        let w = date_text(y, m, d);
                        if k == 0 { lemma_digit_char(y / 1000); }
                        if k == 1 { lemma_digit_char((y / 100) % 10); }
                        if k == 2 { lemma_digit_char((y / 10) % 10); }
                        if k == 3 { lemma_digit_char(y % 10); }
                        if k == 5 { lemma_digit_char(m / 10); }
                        if k == 6 { lemma_digit_char(m % 10); }
                        if k == 8 { lemma_digit_char(d / 10); }
                        if k == 9 { lemma_digit_char(d % 10); }
                        assert(t[k] != w[k]);
                    }
                    return None;
                },
            }
        }
        i += 1;
    }
    if text.get_char(4) != '-' || text.get_char(7) != '-' {
        assert forall|y: int, m: int, d: int|
            0 <= y <= 9999 && 0 <= m <= 99 && 0 <= d <= 99 implies t != #[trigger] date_text(y, m, d) by {
            let w = date_text(y, m, d);
            assert(w[4] == '-' && w[7] == '-');
        }
        return None;
    }
    let y = digits[0] * 1000 + digits[1] * 100 + digits[2] * 10 + digits[3];
    let m = digits[5] * 10 + digits[6];
    let d = digits[8] * 10 + digits[9];
    proof {
        lemma_four_digits(digits@[0] as int, digits@[1] as int, digits@[2] as int, digits@[3] as int);
        lemma_two_digits(digits@[5] as int, digits@[6] as int);
        lemma_two_digits(digits@[8] as int, digits@[9] as int);
        assert(t =~= date_text(y as int, m as int, d as int));
    }
    Some((y, m, d))
}

/// The number of `y-m-d` from the common era, for a calendar date of the
/// years 1 to 9999.
fn date_days(y: i32, m: i32, d: i32) -> (r: i32)
    requires
        is_valid_date(y as int, m as int, d as int),
    ensures
        r == days_from_ce(y as int, m as int, d as int),
{
    let leap = y % 4 == 0 && (y % 100 != 0 || y % 400 == 0);
    let common: i32 = if m <= 1 {
        0
    } else if m == 2 {
        31
    } else if m == 3 {
        59
    } else if m == 4 {
        90
    } else if m == 5 {
        120
    } else if m == 6 {
        151
    } else if m == 7 {
        181
    } else if m == 8 {
        212
    } else if m == 9 {
        243
    } else if m == 10 {
        273
    } else if m == 11 {
        304
    } else {
        334
    };
    let before = if m > 2 && leap { common + 1 } else { common };
    let p = y - 1;
    365 * p + p / 4 - p / 100 + p / 400 + before + d
}

/// Parses `text` with the strftime-style `format` as
/// `chrono::NaiveDate::parse_from_str` does, giving the parsed day as its
/// number of days from the common era; a parse error gives `None`.
///
/// A text `YYYY-MM-DD` under the format `%Y-%m-%d` gives the day number of
/// that date when it is a calendar date, and `None` otherwise.
pub fn parse_date(text: &str, format: &str) -> (r: Option<i32>)
    ensures
        r == parsed_date(text@, format@),
        r matches Some(d) ==> MIN_DATE_DAYS <= d <= MAX_DATE_DAYS,
        forall|y: int, m: int, d: int|
            format@ == TOURNEY_DATE_FORMAT@ && 1 <= y <= 9999 && 0 <= m <= 99 && 0 <= d <= 99
                && text@ == #[trigger] date_text(y, m, d) ==> r == (if is_valid_date(y, m, d) {
                Some(days_from_ce(y, m, d) as i32)
            } else {
                None
            }),
{
    let parsed = chrono_parse_date(text, format);
    if !is_tourney_format(format) {
        return parsed;
    }
    match split_date_text(text) {
        Some((y, m, d)) => {
            if y < 1 {
                return parsed;
            }
            let valid = 1 <= m && m <= 12 && 1 <= d && d <= (if m == 2 {
                if y % 4 == 0 && (y % 100 != 0 || y % 400 == 0) {
                    29
                } else {
                    28
                }
            } else if m == 4 || m == 6 || m == 9 || m == 11 {
                30
            } else {
                31
            });
            if valid {
                Some(date_days(y, m, d))
            } else {
                None
            }
        },
        None => parsed,
    }
}

/// The day number of `chrono::NaiveDate::MIN`, the earliest date chrono
/// represents.
#[verifier::external_body]
pub fn earliest_date_days() -> (r: i32)
    ensures
        r == MIN_DATE_DAYS,
{
    NaiveDate::MIN.num_days_from_ce()
}

/// Today's date in UTC, read from the system clock through
/// `chrono::Utc::now().naive_utc().date()`, as a day number.
///
/// The result depends on the clock; the contract states only what holds of
/// every outcome: `Utc::now` panics on a clock set before the Unix epoch, so
/// a returned day is not earlier than January 1, 1970, and it is a date that
/// chrono represents. That the clock is not set before 1970 is not stated:
/// it is no argument of this function.
#[verifier::external_body]
pub fn today_days() -> (r: i32)
    ensures
        UNIX_EPOCH_DAYS <= r <= MAX_DATE_DAYS,
{
    Utc::now().naive_utc().date().num_days_from_ce()
}

/// A day, or the earliest representable date when there is none.
pub open spec fn day_or_earliest(day: Option<i32>) -> int {
    match day {
        Some(d) => d as int,
        None => MIN_DATE_DAYS as int,
    }
}

/// `today` lies between `first` and `last`, both included, where a missing
/// bound stands for the earliest representable date.
pub open spec fn within_days(first: Option<i32>, last: Option<i32>, today: int) -> bool {
    day_or_earliest(first) <= today && today <= day_or_earliest(last)
}

/// Whether `today` lies between `first` and `last`, both included, a
/// missing bound standing for the earliest representable date.
pub fn is_within_days(first: Option<i32>, last: Option<i32>, today: i32) -> (r: bool)
    ensures
        r == within_days(first, last, today as int),
{
    let earliest = earliest_date_days();
    let first = match first {
        Some(d) => d,
        None => earliest,
    };
    let last = match last {
        Some(d) => d,
        None => earliest,
    };
    first <= today && today <= last
}

/// Both bounds are known and `today` lies strictly between them.
pub open spec fn strictly_within_days(first: Option<i32>, last: Option<i32>, today: int) -> bool {
    &&& first matches Some(f) && f < today
    &&& last matches Some(l) && l > today
}

/// Whether both bounds are known and `today` lies strictly between them.
pub fn is_strictly_within_days(first: Option<i32>, last: Option<i32>, today: i32) -> (r: bool)
    ensures
        r == strictly_within_days(first, last, today as int),
{
    match (first, last) {
        (Some(f), Some(l)) => f < today && l > today,
        _ => false,
    }
}

/// The first day is known and comes less than a week after `today`.
pub open spec fn starts_within_week(first: Option<i32>, today: int) -> bool {
    first matches Some(f) && f - 7 < today
}

/// Whether the first day is known and the week before it began before
/// `today`. The week before the first day must be a representable date:
/// `NaiveDate - Duration` panics below the earliest date.
pub fn starts_within_a_week(first: Option<i32>, today: i32) -> (r: bool)
    requires
        first matches Some(f) ==> f - 7 >= MIN_DATE_DAYS,
    ensures
        r == starts_within_week(first, today as int),
{
    match first {
        Some(f) => f - 7 < today,
        None => false,
    }
}

} // verus!
