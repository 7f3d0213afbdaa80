//! Moments and ages. A moment is a count of seconds since the Unix epoch;
//! an age is the distance from a moment back to a fixed "now".

use chrono::TimeZone;
use vstd::prelude::*;
use crate::git_rewrite::error::GitRewriteError;

verus! {

/// Where a date and time of the local calendar falls on the time line.
#[derive(Debug, Clone, Copy, PartialEq, Eq, Structural)]
pub enum LocalMoment {
    /// Nowhere: the clocks skipped it.
    Missing,
    /// At one moment.
    Single(i64),
    /// At two moments, the earlier first: the clocks went through it twice.
    Ambiguous(i64, i64),
}

/// The layout of the timestamps in the audit tool's output: month, day and
/// two-digit year, then hour and minute on the twelve-hour clock.
pub const TIMESTAMP_FORMAT: &'static str = "%m/%d/%y %I:%M %p";

/// The calendar date and time that `value` holds when it is read as laid
/// out by `format`: the seconds from the first moment of 1970 to it, both
/// read off one and the same clock, whatever the time zone. `None` where
/// `value` is not laid out so.
pub uninterp spec fn naive_seconds(value: Seq<char>, format: Seq<char>) -> Option<i64>;

/// Reads a calendar date and time from `value`, laid out as `format` says;
/// the call is `chrono::NaiveDateTime::parse_from_str`, and what is read is
/// handed out as `NaiveDateTime::and_utc` and `DateTime::timestamp` count
/// it. The claim: whether the text is read, and as what, depends on the text
/// and the layout alone.
#[verifier::external_body]
pub(crate) fn naive_from_text(value: &str, format: &str) -> (r: Result<i64, chrono::ParseError>)
    ensures
        match r {
            Ok(seconds) => naive_seconds(value@, format@) == Some(seconds),
            Err(_) => naive_seconds(value@, format@) is None,
        },
{
    chrono::NaiveDateTime::parse_from_str(value, format).map(|naive| naive.and_utc().timestamp())
}

/// Places a calendar date and time, given in seconds as `naive_seconds`
/// counts them, in this machine's time zone; the calls are
/// `chrono::DateTime::from_timestamp` to get the date and time back and
/// `chrono::Local.from_local_datetime` to place it, and each moment found is
/// handed out as `DateTime::timestamp` counts it. A count beyond the
/// calendar is placed nowhere. Nothing is promised: the answer depends on the
/// time zone that the machine is set to.
#[verifier::external_body]
pub(crate) fn local_moment(seconds: i64) -> LocalMoment {
    let Some(utc) = chrono::DateTime::from_timestamp(seconds, 0) else {
        return LocalMoment::Missing;
    };
    match chrono::Local.from_local_datetime(&utc.naive_utc()) {
        chrono::LocalResult::Single(at) => LocalMoment::Single(at.timestamp()),
        chrono::LocalResult::Ambiguous(first, second) => LocalMoment::Ambiguous(
            first.timestamp(),
            second.timestamp(),
        ),
        chrono::LocalResult::None => LocalMoment::Missing,
    }
}

/// The moment that a placed local time is taken for: the one there is, or
/// the earlier of two.
pub open spec fn moment_of(placed: LocalMoment) -> Option<i64> {
    match placed {
        LocalMoment::Single(at) => Some(at),
        LocalMoment::Ambiguous(first, _) => Some(first),
        LocalMoment::Missing => None,
    }
}

/// Whether `r` is what a timestamp of the pair `match_key`, read from the
/// text `value` and placed as `placed` says, settles as: the moment that the
/// placing gives, or the error that the local time never was.
pub open spec fn settles_as(
    match_key: Seq<char>,
    value: Seq<char>,
    placed: LocalMoment,
    r: Result<i64, GitRewriteError>,
) -> bool {
    match moment_of(placed) {
        Some(at) => r == Ok::<i64, GitRewriteError>(at),
        None => r matches Err(GitRewriteError::DateOutOfRange { match_key: k, value: v }) && k@
            == match_key && v@ == value,
    }
}

/// Settles a placed local time: a local time that never was is an error that
/// names the pair and the text it was read from.
pub fn resolve_local(match_key: &str, value: &str, placed: LocalMoment) -> (r: Result<
    i64,
    GitRewriteError,
>)
    ensures
        settles_as(match_key@, value@, placed, r),
{
    match placed {
        LocalMoment::Single(at) => Ok(at),
        LocalMoment::Ambiguous(first, _) => Ok(first),
        LocalMoment::Missing => Err(
            GitRewriteError::DateOutOfRange {
                match_key: match_key.to_owned(),
                value: value.to_owned(),
            },
        ),
    }
}

/// Whether `e` says that the timestamp `value` of the pair `match_key` could
/// not be read or placed.
pub open spec fn is_date_error(e: GitRewriteError, match_key: Seq<char>, value: Seq<char>) -> bool {
    match e {
        GitRewriteError::DateParse { match_key: k, value: v, source } => k@ == match_key && v@
            == value,
        GitRewriteError::DateOutOfRange { match_key: k, value: v } => k@ == match_key && v@
            == value,
        _ => false,
    }
}

/// Whether `r` is what reading the timestamp `value` of the pair
/// `match_key` gives. A text that is not laid out as a timestamp gives the
/// error of the reading, which names the pair and the text. Any other text
/// is placed in the machine's time zone, and gives what the placing settles
/// as.
pub open spec fn is_timestamp_reading(
    match_key: Seq<char>,
    value: Seq<char>,
    r: Result<i64, GitRewriteError>,
) -> bool {
    match naive_seconds(value, "%m/%d/%y %I:%M %p"@) {
        None => r matches Err(GitRewriteError::DateParse { match_key: k, value: v, source })
            && k@ == match_key && v@ == value,
        Some(_) => exists|placed: LocalMoment| #[trigger] settles_as(match_key, value, placed, r),
    }
}

/// Reads a timestamp of the audit tool as a moment of this machine's local
/// time. Whether the text is laid out as a timestamp is for the calendar
/// library to say, and where it falls is for the machine's time zone; a
/// failure names the pair and the text.
pub fn parse_local_datetime(match_key: &str, value: &str) -> (r: Result<i64, GitRewriteError>)
    ensures
        is_timestamp_reading(match_key@, value@, r),
        r matches Err(e) ==> is_date_error(e, match_key@, value@),
{
    match naive_from_text(value, TIMESTAMP_FORMAT) {
        Ok(seconds) => {
            let placed = local_moment(seconds);
            let r = resolve_local(match_key, value, placed);
            assert(settles_as(match_key@, value@, placed, r));
            r
        },
        Err(source) => Err(
            GitRewriteError::DateParse {
                match_key: match_key.to_owned(),
                value: value.to_owned(),
                source,
            },
        ),
    }
}

/// The age at `now` of the moment `other`, in whole seconds; a moment after
/// `now` has age zero.
pub open spec fn age_at(now: i64, other: i64) -> u64 {
    if now <= other {
        0
    } else {
        (now - other) as u64
    }
}

/// Computes `age_at`.
pub fn diff_seconds(now: i64, other: i64) -> (r: u64)
    ensures
        r == age_at(now, other),
{
    if now <= other {
        0
    } else {
        ((now as i128) - (other as i128)) as u64
    }
}

/// The earliest of the moments in `ts`.
pub open spec fn earliest(ts: Seq<i64>) -> i64
    recommends
        ts.len() > 0,
    decreases ts.len(),
{
    if ts.len() <= 1 {
        ts[0]
    } else if ts.last() < earliest(ts.drop_last()) {
        ts.last()
    } else {
        earliest(ts.drop_last())
    }
}

/// The latest of the moments in `ts`.
pub open spec fn latest(ts: Seq<i64>) -> i64
    recommends
        ts.len() > 0,
    decreases ts.len(),
{
    if ts.len() <= 1 {
        ts[0]
    } else if ts.last() > latest(ts.drop_last()) {
        ts.last()
    } else {
        latest(ts.drop_last())
    }
}

/// The earliest and the latest moment are among the moments and bound them all.
pub proof fn lemma_earliest_latest(ts: Seq<i64>)
    requires
        ts.len() > 0,
    ensures
        ts.contains(earliest(ts)),
        ts.contains(latest(ts)),
        forall|i: int| 0 <= i < ts.len() ==> earliest(ts) <= #[trigger] ts[i] <= latest(ts),
    decreases ts.len(),
{
    if ts.len() > 1 {
        let init = ts.drop_last();
        lemma_earliest_latest(init);
        let i = choose|i: int| 0 <= i < init.len() && init[i] == earliest(init);
        assert(ts[i] == earliest(init));
        let j = choose|j: int| 0 <= j < init.len() && init[j] == latest(init);
        assert(ts[j] == latest(init));
        assert(ts[ts.len() - 1] == ts.last());
        assert forall|k: int| 0 <= k < ts.len() implies earliest(ts) <= #[trigger] ts[k] <= latest(
            ts,
        ) by {
            if k < init.len() {
                assert(init[k] == ts[k]);
            }
        }
    } else {
        assert(ts[0] == earliest(ts));
    }
}

/// The ages at `now` of the earliest and of the latest of the moments, in
/// that order: the greatest age first. Without moments there are no ages.
pub open spec fn bounds_of(ts: Seq<i64>, now: i64) -> (Option<u64>, Option<u64>) {
    if ts.len() == 0 {
        (None, None)
    } else {
        (Some(age_at(now, earliest(ts))), Some(age_at(now, latest(ts))))
    }
}

/// The first bound is the greater: no moment is older than the earliest.
pub proof fn lemma_bounds_are_ordered(ts: Seq<i64>, now: i64)
    requires
        ts.len() > 0,
    ensures
        bounds_of(ts, now).0->0 >= bounds_of(ts, now).1->0,
{
    lemma_earliest_latest(ts);
    assert(ts.contains(latest(ts)));
    let i = choose|i: int| 0 <= i < ts.len() && ts[i] == latest(ts);
    assert(earliest(ts) <= ts[i]);
}

/// Computes `bounds_of`.
pub fn compute_bounds(timestamps: &Vec<i64>, now: i64) -> (r: (Option<u64>, Option<u64>))
    ensures
        r == bounds_of(timestamps@, now),
{
    if timestamps.len() == 0 {
        return (None, None);
    }
    let mut low: i64 = timestamps[0];
    let mut high: i64 = timestamps[0];
    let mut i: usize = 1;
    assert(timestamps@.take(1)[0] == timestamps@[0]);
    while i < timestamps.len()
        invariant
            1 <= i <= timestamps.len(),
            low == earliest(timestamps@.take(i as int)),
            high == latest(timestamps@.take(i as int)),
        decreases timestamps.len() - i,
    {
        let t = timestamps[i];
        proof {
            assert(timestamps@.take(i + 1).drop_last() =~= timestamps@.take(i as int));
            assert(timestamps@.take(i + 1).last() == t);
        }
        if t < low {
            low = t;
        }
        if t > high {
            high = t;
        }
        i += 1;
    }
    assert(timestamps@.take(timestamps.len() as int) =~= timestamps@);
    (Some(diff_seconds(now, low)), Some(diff_seconds(now, high)))
}

} // verus!
