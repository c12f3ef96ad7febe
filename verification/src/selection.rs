//! What the endpoints answer, given what the data layer returned.
use crate::dates::{
    is_strictly_within_days, starts_within_a_week, starts_within_week, strictly_within_days,
    today_days, MAX_DATE_DAYS, MIN_DATE_DAYS, UNIX_EPOCH_DAYS,
};
use crate::error::{internal, LolEsportsApiError};
use crate::tournament::{end_of, ongoing_on, start_of, Tournament, TournamentExt};
use color_eyre::Report;
use vstd::prelude::*;
use vstd::seq_lib::group_seq_properties;
use vstd::string::{StrSliceExecFns, StringExecFns};

verus! {

/// Every item that the data layer yielded is a record.
pub open spec fn all_ok<T>(items: Seq<Result<T, Report>>) -> bool {
    forall|i: int| 0 <= i < items.len() ==> (#[trigger] items[i]) is Ok
}

/// The records of a stream in which every item is a record.
pub open spec fn ok_values<T>(items: Seq<Result<T, Report>>) -> Seq<T> {
    items.map_values(|r: Result<T, Report>| r->Ok_0)
}

/// Item `k` is the first failure in the stream.
pub open spec fn is_first_error<T>(items: Seq<Result<T, Report>>, k: int) -> bool {
    &&& 0 <= k < items.len()
    &&& items[k] is Err
    &&& forall|i: int| 0 <= i < k ==> (#[trigger] items[i]) is Ok
}

/// Collects a stream of records, stopping at the first failure, which is
/// answered as an internal error.
pub fn collect_items<T>(items: Vec<Result<T, Report>>) -> (r: Result<Vec<T>, LolEsportsApiError>)
    ensures
        match r {
            Ok(v) => all_ok(items@) && v@ == ok_values(items@),
            Err(err) => exists|k: int| is_first_error(items@, k) && err == internal(items@[k]->Err_0),
        },
{
    let ghost s = items@;
    let mut out: Vec<T> = Vec::new();
    for item in it: items.into_iter()
        invariant
            it.seq() == s,
            out@ == ok_values(s.take(it.index() as int)),
            all_ok(s.take(it.index() as int)),
    {
        let ghost i = it.index() as int;
        match item {
            Ok(t) => {
                out.push(t);
                assert(s.take(i + 1) =~= s.take(i).push(s[i]));
                assert(ok_values(s.take(i + 1)) =~= ok_values(s.take(i)).push(t));
            },
            Err(e) => {
                assert(is_first_error(s, i)) by {
                    assert forall|j: int| 0 <= j < i implies (#[trigger] s[j]) is Ok by {
                        assert(s.take(i)[j] == s[j]);
                    }
                }
                return Err(LolEsportsApiError::internal_error(e));
            },
        }
    }
    assert(s.take(s.len() as int) =~= s);
    Ok(out)
}

/// Answers a data-layer failure as an internal error and passes a result on.
pub fn or_internal_error<T>(res: Result<T, Report>) -> (r: Result<T, LolEsportsApiError>)
    ensures
        match res {
            Ok(v) => r == Ok::<T, LolEsportsApiError>(v),
            Err(e) => r == Err::<T, LolEsportsApiError>(internal(e)),
        },
{
    match res {
        Ok(v) => Ok(v),
        Err(e) => Err(LolEsportsApiError::internal_error(e)),
    }
}

/// The answer to a lookup of one record: the record when found, `NotFound`
/// with `missing` as its message when absent, an internal error when the
/// data layer failed.
pub open spec fn lookup_answer<T>(
    res: Result<Option<T>, Report>,
    missing: Seq<char>,
    r: Result<T, LolEsportsApiError>,
) -> bool {
    match res {
        Ok(Some(v)) => r == Ok::<T, LolEsportsApiError>(v),
        Ok(None) => r matches Err(LolEsportsApiError::NotFound { message }) && message@ == missing,
        Err(e) => r == Err::<T, LolEsportsApiError>(internal(e)),
    }
}

fn lookup<T>(res: Result<Option<T>, Report>, missing: String) -> (r: Result<T, LolEsportsApiError>)
    ensures
        lookup_answer(res, missing@, r),
{
    match res {
        Ok(Some(v)) => Ok(v),
        Ok(None) => Err(LolEsportsApiError::not_found(missing)),
        Err(e) => Err(LolEsportsApiError::internal_error(e)),
    }
}

/// The message for a league that does not exist.
pub open spec fn missing_league_message(league_id: Seq<char>) -> Seq<char> {
    "leagueId '"@ + league_id + "' does not exist"@
}

/// The message for a team that does not exist.
pub open spec fn missing_team_message(team_id: Seq<char>) -> Seq<char> {
    "Could not find team with id "@ + team_id
}

/// The message for a tournament that does not exist.
pub open spec fn missing_tournament_message(tournament_id: Seq<char>) -> Seq<char> {
    "Tournament with id "@ + tournament_id + " not found"@
}

/// The answer to a lookup of the league `league_id`.
pub fn league_lookup<T>(res: Result<Option<T>, Report>, league_id: &str) -> (r: Result<T, LolEsportsApiError>)
    ensures
        lookup_answer(res, missing_league_message(league_id@), r),
{
    let mut message = String::from_str("leagueId '");
    message.append(league_id);
    message.append("' does not exist");
    lookup(res, message)
}

/// The answer to a lookup of the team `team_id`.
pub fn team_lookup<T>(res: Result<Option<T>, Report>, team_id: &str) -> (r: Result<T, LolEsportsApiError>)
    ensures
        lookup_answer(res, missing_team_message(team_id@), r),
{
    let mut message = String::from_str("Could not find team with id ");
    message.append(team_id);
    lookup(res, message)
}

/// The answer to a lookup of the tournament `tournament_id`.
pub fn tournament_lookup<T>(res: Result<Option<T>, Report>, tournament_id: &str) -> (r: Result<T, LolEsportsApiError>)
    ensures
        lookup_answer(res, missing_tournament_message(tournament_id@), r),
{
    let mut message = String::from_str("Tournament with id ");
    message.append(tournament_id);
    message.append(" not found");
    lookup(res, message)
}

/// The answer to a request over a stream of records: the first failure in
/// the stream, answered as an internal error, or else the records that
/// `kept` selects, in their order.
pub open spec fn stream_answer(
    items: Seq<Result<Tournament, Report>>,
    kept: spec_fn(Tournament) -> bool,
    r: Result<Vec<Tournament>, LolEsportsApiError>,
) -> bool {
    match r {
        Ok(v) => all_ok(items) && v@ == ok_values(items).filter(kept),
        Err(err) => exists|k: int| is_first_error(items, k) && err == internal(items[k]->Err_0),
    }
}

/// The tournament runs strictly around `today`: it started before it and
/// ends after it.
pub open spec fn runs_around(t: Tournament, today: int) -> bool {
    strictly_within_days(start_of(t), end_of(t), today)
}

/// The answer listing the tournaments of `items` that run around `today`.
pub open spec fn ongoing_answer(
    items: Seq<Result<Tournament, Report>>,
    today: int,
    r: Result<Vec<Tournament>, LolEsportsApiError>,
) -> bool {
    stream_answer(items, |t: Tournament| runs_around(t, today), r)
}

/// The tournaments running on `today`, out of the stream `items`; a failure
/// in the stream is answered as an internal error.
pub fn select_ongoing_tournaments(items: Vec<Result<Tournament, Report>>, today: i32) -> (r: Result<Vec<Tournament>, LolEsportsApiError>)
    ensures
        ongoing_answer(items@, today as int, r),
{
    broadcast use group_seq_properties;
    let ghost s = items@;
    let ghost kept = |t: Tournament| runs_around(t, today as int);
    let mut out: Vec<Tournament> = Vec::new();
    for item in it: items.into_iter()
        invariant
            it.seq() == s,
            kept == (|t: Tournament| runs_around(t, today as int)),
            out@ == ok_values(s.take(it.index() as int)).filter(kept),
            all_ok(s.take(it.index() as int)),
    {
        let ghost i = it.index() as int;
        match item {
            Ok(t) => {
                assert(s.take(i + 1) =~= s.take(i).push(s[i]));
                assert(ok_values(s.take(i + 1)) =~= ok_values(s.take(i)).push(t));
                let keep = is_strictly_within_days(t.start_date(), t.end_date(), today);
                proof {
                    ok_values(s.take(i)).lemma_filter_push(t, kept);
                    assert(keep == kept(t));
                }
                if keep {
                    out.push(t);
                }
            },
            Err(e) => {
                assert(is_first_error(s, i)) by {
                    assert forall|j: int| 0 <= j < i implies (#[trigger] s[j]) is Ok by {
                        assert(s.take(i)[j] == s[j]);
                    }
                }
                return Err(LolEsportsApiError::internal_error(e));
            },
        }
    }
    assert(s.take(s.len() as int) =~= s);
    Ok(out)
}

/// The tournaments running today (UTC, read from the clock), out of the
/// stream `items`.
pub fn ongoing_tournaments(items: Vec<Result<Tournament, Report>>) -> (r: Result<Vec<Tournament>, LolEsportsApiError>)
    ensures
        exists|today: int|
            UNIX_EPOCH_DAYS <= today <= MAX_DATE_DAYS && #[trigger] ongoing_answer(items@, today, r),
{
    let today = today_days();
    let r = select_ongoing_tournaments(items, today);
    assert(ongoing_answer(items@, today as int, r));
    r
}

/// Every tournament listed as ongoing runs on that day, as `is_ongoing_on`
/// decides it.
pub proof fn listed_tournaments_are_ongoing(
    items: Seq<Result<Tournament, Report>>,
    today: int,
    r: Result<Vec<Tournament>, LolEsportsApiError>,
)
    requires
        ongoing_answer(items, today, r),
        r is Ok,
    ensures
        forall|i: int| 0 <= i < r->Ok_0@.len() ==> ongoing_on(#[trigger] r->Ok_0@[i], today),
{
    broadcast use group_seq_properties;
    let kept = |t: Tournament| runs_around(t, today);
    let v = r->Ok_0@;
    assert forall|i: int| 0 <= i < v.len() implies ongoing_on(#[trigger] v[i], today) by {
        ok_values(items).lemma_filter_pred(kept, i);
    }
}

/// The character `c` with ASCII upper-case letters made lower-case.
pub open spec fn ascii_lower(c: char) -> char {
    if 'A' <= c && c <= 'Z' {
        ((c as int) + 32) as char
    } else {
        c
    }
}

/// `to_ascii_lowercase` of a text.
pub open spec fn ascii_lowercase(s: Seq<char>) -> Seq<char> {
    s.map_values(|c: char| ascii_lower(c))
}

/// The league is the World Championship (`wcs`, in any ASCII case).
pub open spec fn is_wcs(league_id: Seq<char>) -> bool {
    ascii_lowercase(league_id) == "wcs"@
}

/// Whether `league_id` names the World Championship.
pub fn is_world_championship(league_id: &str) -> (r: bool)
    ensures
        r == is_wcs(league_id@),
{
    proof {
        reveal_strlit("wcs");
    }
    let n = league_id.unicode_len();
    if n != 3 {
        assert(ascii_lowercase(league_id@).len() != "wcs"@.len());
        return false;
    }
    let a = league_id.get_char(0);
    let b = league_id.get_char(1);
    let c = league_id.get_char(2);
    let r = (a == 'w' || a == 'W') && (b == 'c' || b == 'C') && (c == 's' || c == 'S');
    proof {
        let low = ascii_lowercase(league_id@);
        assert(low[0] == ascii_lower(a) && low[1] == ascii_lower(b) && low[2] == ascii_lower(c));
        if r {
            assert(low =~= "wcs"@);
        } else {
            assert(low[0] != 'w' || low[1] != 'c' || low[2] != 's');
        }
    }
    r
}

/// A tournament is considered for a league: for the World Championship only
/// official tournaments count.
pub open spec fn counts_for_league(wcs: bool, t: Tournament) -> bool {
    !wcs || t.is_official == Some(true)
}

/// The tournament starts within a week after `today`, or started before.
pub open spec fn starts_by(t: Tournament, today: int) -> bool {
    starts_within_week(start_of(t), today)
}

/// A candidate for the most recent tournament of a league.
pub open spec fn is_candidate(wcs: bool, t: Tournament, today: int) -> bool {
    counts_for_league(wcs, t) && starts_by(t, today)
}

/// The candidates for the most recent tournament, in stream order.
pub open spec fn candidates(
    league_id: Seq<char>,
    items: Seq<Result<Tournament, Report>>,
    today: int,
) -> Seq<Tournament> {
    ok_values(items).filter(|t: Tournament| is_candidate(is_wcs(league_id), t, today))
}

/// `c[k]` is the first of `c` that runs on `today`.
pub open spec fn is_first_ongoing(c: Seq<Tournament>, today: int, k: int) -> bool {
    &&& 0 <= k < c.len()
    &&& ongoing_on(c[k], today)
    &&& forall|j: int| 0 <= j < k ==> !ongoing_on(#[trigger] c[j], today)
}

/// The first of `c` that runs on `today`, or else the first of `c`.
pub open spec fn most_recent_of(c: Seq<Tournament>, today: int) -> Option<Tournament> {
    if exists|k: int| is_first_ongoing(c, today, k) {
        Some(c[choose|k: int| is_first_ongoing(c, today, k)])
    } else if c.len() > 0 {
        Some(c[0])
    } else {
        None
    }
}

/// The answer to the most-recent-tournament request on `today`.
pub open spec fn most_recent_answer(
    league_id: Seq<char>,
    items: Seq<Result<Tournament, Report>>,
    today: int,
    r: Result<Option<Tournament>, LolEsportsApiError>,
) -> bool {
    match r {
        Ok(found) => all_ok(items) && found == most_recent_of(candidates(league_id, items, today), today),
        Err(err) => exists|k: int| is_first_error(items, k) && err == internal(items[k]->Err_0),
    }
}

/// The week before a tournament's start is a representable date whenever the
/// stream reaches that tournament with the league's filter letting it through:
/// otherwise the subtraction of a week from its start date panics.
pub open spec fn week_before_start_defined(
    league_id: Seq<char>,
    items: Seq<Result<Tournament, Report>>,
) -> bool {
    forall|i: int|
        #![trigger items[i]]
        0 <= i < items.len() && all_ok(items.take(i + 1)) && counts_for_league(
            is_wcs(league_id),
            items[i]->Ok_0,
        ) ==> (start_of(items[i]->Ok_0) matches Some(start) ==> start - 7 >= MIN_DATE_DAYS)
}

/// The most recent tournament of the league `league_id` on `today`, out of
/// the stream `items` of all tournaments: the first candidate that runs on
/// `today`, else the first candidate, where a candidate counts for the league
/// and starts no later than a week after `today`.
pub fn select_most_recent_tournament(
    league_id: &str,
    items: Vec<Result<Tournament, Report>>,
    today: i32,
) -> (r: Result<Option<Tournament>, LolEsportsApiError>)
    requires
        week_before_start_defined(league_id@, items@),
    ensures
        most_recent_answer(league_id@, items@, today as int, r),
{
    broadcast use group_seq_properties;
    let ghost s = items@;
    let wcs = is_world_championship(league_id);
    let ghost kept = |t: Tournament| is_candidate(is_wcs(league_id@), t, today as int);
    let mut cands: Vec<Tournament> = Vec::new();
    for item in it: items.into_iter()
        invariant
            it.seq() == s,
            wcs == is_wcs(league_id@),
            kept == (|t: Tournament| is_candidate(is_wcs(league_id@), t, today as int)),
            week_before_start_defined(league_id@, s),
            cands@ == ok_values(s.take(it.index() as int)).filter(kept),
            all_ok(s.take(it.index() as int)),
    {
        let ghost i = it.index() as int;
        match item {
            Ok(t) => {
                assert(s.take(i + 1) =~= s.take(i).push(s[i]));
                assert(ok_values(s.take(i + 1)) =~= ok_values(s.take(i)).push(t));
                assert(all_ok(s.take(i + 1))) by {
                    assert forall|j: int| 0 <= j < i + 1 implies (#[trigger] s.take(i + 1)[j]) is Ok by {
                        if j < i {
                            assert(s.take(i)[j] == s[j]);
                        }
                    }
                }
                let counts = !wcs || t.is_official == Some(true);
                let keep = if counts {
                    starts_within_a_week(t.start_date(), today)
                } else {
                    false
                };
                proof {
                    ok_values(s.take(i)).lemma_filter_push(t, kept);
                    assert(keep == kept(t));
                }
                if keep {
                    cands.push(t);
                }
            },
            Err(e) => {
                assert(is_first_error(s, i)) by {
                    assert forall|j: int| 0 <= j < i implies (#[trigger] s[j]) is Ok by {
                        assert(s.take(i)[j] == s[j]);
                    }
                }
                return Err(LolEsportsApiError::internal_error(e));
            },
        }
    }
    assert(s.take(s.len() as int) =~= s);
    let ghost c = cands@;
    assert(c == candidates(league_id@, s, today as int));
    let mut k: usize = 0;
    while k < cands.len()
        invariant
            cands@ == c,
            s == items@,
            c == candidates(league_id@, s, today as int),
            all_ok(s),
            0 <= k <= c.len(),
            forall|j: int| 0 <= j < k ==> !ongoing_on(#[trigger] c[j], today as int),
        decreases c.len() - k,
    {
        if cands[k].is_ongoing_on(today) {
            assert(is_first_ongoing(c, today as int, k as int));
            proof {
                let chosen = choose|j: int| is_first_ongoing(c, today as int, j);
                assert(is_first_ongoing(c, today as int, chosen));
                if chosen < k {
                    assert(!ongoing_on(c[chosen], today as int));
                } else if chosen > k {
                    assert(!ongoing_on(c[k as int], today as int));
                }
                assert(chosen == k);
            }
            let found = cands.remove(k);
            return Ok(Some(found));
        }
        k += 1;
    }
    assert(!exists|j: int| is_first_ongoing(c, today as int, j));
    if cands.len() > 0 {
        let found = cands.remove(0);
        Ok(Some(found))
    } else {
        Ok(None)
    }
}

/// Whether `week_before_start_defined` holds: every tournament that the
/// stream reaches before its first failure, and that counts for the league,
/// has no start date or one at least a week after the earliest date.
pub fn week_before_start_is_defined(league_id: &str, items: &Vec<Result<Tournament, Report>>) -> (r: bool)
    ensures
        r == week_before_start_defined(league_id@, items@),
{
    let wcs = is_world_championship(league_id);
    let ghost s = items@;
    let mut i: usize = 0;
    while i < items.len()
        invariant
            s == items@,
            wcs == is_wcs(league_id@),
            0 <= i <= s.len(),
            all_ok(s.take(i as int)),
            forall|j: int|
                #![trigger s[j]]
                0 <= j < i && counts_for_league(wcs, s[j]->Ok_0) ==> (start_of(s[j]->Ok_0) matches Some(start)
                    ==> start - 7 >= MIN_DATE_DAYS),
        decreases s.len() - i,
    {
        assert(s.take(i as int + 1) =~= s.take(i as int).push(s[i as int]));
        match &items[i] {
            Ok(t) => {
                if !wcs || t.is_official == Some(true) {
                    match t.start_date() {
                        Some(start) => {
                            if start < MIN_DATE_DAYS + 7 {
                                assert(all_ok(s.take(i as int + 1))) by {
                                    assert forall|j: int| 0 <= j < i + 1 implies (#[trigger] s.take(i as int + 1)[j]) is Ok by {
                                        if j < i {
                                            assert(s.take(i as int)[j] == s[j]);
                                        }
                                    }
                                }
                                return false;
                            }
                        },
                        None => {},
                    }
                }
                assert(all_ok(s.take(i as int + 1))) by {
                    assert forall|j: int| 0 <= j < i + 1 implies (#[trigger] s.take(i as int + 1)[j]) is Ok by {
                        if j < i {
                            assert(s.take(i as int)[j] == s[j]);
                        }
                    }
                }
            },
            Err(_) => {
                assert forall|j: int| #![trigger s[j]] 0 <= j < s.len() && all_ok(s.take(j + 1)) && counts_for_league(
                    is_wcs(league_id@),
                    s[j]->Ok_0,
                ) implies (start_of(s[j]->Ok_0) matches Some(start) ==> start - 7 >= MIN_DATE_DAYS) by {
                    if j >= i {
                        assert(s.take(j + 1)[i as int] == s[i as int]);
                    }
                }
                return true;
            },
        }
        i += 1;
    }
    assert forall|j: int| #![trigger s[j]] 0 <= j < s.len() && all_ok(s.take(j + 1)) && counts_for_league(
        is_wcs(league_id@),
        s[j]->Ok_0,
    ) implies (start_of(s[j]->Ok_0) matches Some(start) ==> start - 7 >= MIN_DATE_DAYS) by {}
    true
}

/// The most recent tournament of the league `league_id` today (UTC, read
/// once from the clock), out of the stream `items` of all tournaments.
///
/// `None` where some tournament that the stream reaches starts less than a
/// week after the earliest representable date: subtracting the week from
/// that start overflows the calendar, and the request cannot be answered.
pub fn most_recent_tournament(
    league_id: &str,
    items: Vec<Result<Tournament, Report>>,
) -> (r: Option<Result<Option<Tournament>, LolEsportsApiError>>)
    ensures
        r is None <==> !week_before_start_defined(league_id@, items@),
        r matches Some(answer) ==> exists|today: int|
            UNIX_EPOCH_DAYS <= today <= MAX_DATE_DAYS
                && #[trigger] most_recent_answer(league_id@, items@, today, answer),
{
    if !week_before_start_is_defined(league_id, &items) {
        return None;
    }
    let today = today_days();
    let answer = select_most_recent_tournament(league_id, items, today);
    assert(most_recent_answer(league_id@, items@, today as int, answer));
    Some(answer)
}

/// The tournament picked as the most recent one is a candidate: it counts
/// for the league (for the World Championship, it is official) and starts
/// no later than a week after the day of the request.
pub proof fn picked_tournament_is_candidate(
    league_id: Seq<char>,
    items: Seq<Result<Tournament, Report>>,
    today: int,
    r: Result<Option<Tournament>, LolEsportsApiError>,
)
    requires
        most_recent_answer(league_id, items, today, r),
        r matches Ok(Some(_)),
    ensures
        is_candidate(is_wcs(league_id), r->Ok_0->Some_0, today),
        is_wcs(league_id) ==> r->Ok_0->Some_0.is_official == Some(true),
{
    broadcast use group_seq_properties;
    let kept = |t: Tournament| is_candidate(is_wcs(league_id), t, today);
    let c = candidates(league_id, items, today);
    if exists|k: int| is_first_ongoing(c, today, k) {
        let k = choose|k: int| is_first_ongoing(c, today, k);
        ok_values(items).lemma_filter_pred(kept, k);
    } else {
        ok_values(items).lemma_filter_pred(kept, 0);
    }
}

/// When some candidate runs on the day of the request, the tournament picked
/// as the most recent one runs on that day too, and no candidate before it
/// in the stream does.
pub proof fn picked_tournament_is_first_running(
    league_id: Seq<char>,
    items: Seq<Result<Tournament, Report>>,
    today: int,
    r: Result<Option<Tournament>, LolEsportsApiError>,
    i: int,
)
    requires
        most_recent_answer(league_id, items, today, r),
        r is Ok,
        0 <= i < candidates(league_id, items, today).len(),
        ongoing_on(candidates(league_id, items, today)[i], today),
    ensures
        exists|k: int|
            0 <= k <= i && r->Ok_0 == Some(candidates(league_id, items, today)[k])
                && ongoing_on(candidates(league_id, items, today)[k], today)
                && forall|j: int|
                0 <= j < k ==> !ongoing_on(#[trigger] candidates(league_id, items, today)[j], today),
{
    let c = candidates(league_id, items, today);
    first_running_at_or_before(c, today, i);
    let k = choose|k: int| k <= i && is_first_ongoing(c, today, k);
    let chosen = choose|j: int| is_first_ongoing(c, today, j);
    if chosen < k {
        assert(!ongoing_on(c[chosen], today));
    } else if chosen > k {
        assert(!ongoing_on(c[k], today));
    }
}

proof fn first_running_at_or_before(c: Seq<Tournament>, today: int, i: int)
    requires
        0 <= i < c.len(),
        ongoing_on(c[i], today),
    ensures
        exists|k: int| k <= i && #[trigger] is_first_ongoing(c, today, k),
    decreases i,
{
    if exists|j: int| 0 <= j < i && ongoing_on(#[trigger] c[j], today) {
        let j = choose|j: int| 0 <= j < i && ongoing_on(#[trigger] c[j], today);
        first_running_at_or_before(c, today, j);
    } else {
        assert(is_first_ongoing(c, today, i));
    }
}

/// No tournament is picked exactly when there is no candidate.
pub proof fn nothing_picked_iff_no_candidate(
    league_id: Seq<char>,
    items: Seq<Result<Tournament, Report>>,
    today: int,
    r: Result<Option<Tournament>, LolEsportsApiError>,
)
    requires
        most_recent_answer(league_id, items, today, r),
        r is Ok,
    ensures
        (r->Ok_0 is None) <==> candidates(league_id, items, today).len() == 0,
{
}

} // verus!
