//! The checked-out branch against its own upstream.

use vstd::prelude::*;
use crate::git::refs::{
    age_bounds_of, ages_answered, ahead_args, branch_from_output, branch_of,
    commit_age_bounds_for_ref_pair,
    epoch_secs, log_args, range_argument, succeeded, succeeded_output,
};
use crate::git::runner::{GitOutput, GitRunner};
use crate::order::texts;
use crate::system::Clock;
use crate::text::{chars_of, parse_u64, parsed_u64, trim, trim_bounds};
use crate::types::opt_text;

verus! {

/// The arguments that ask whether `HEAD` names a commit.
pub open spec fn head_exists_args() -> Seq<Seq<char>> {
    seq!["rev-parse"@, "--verify"@, "HEAD"@]
}

/// Whether `repo` has any commit: whether `HEAD` names one. This tells a
/// repository without an upstream from one without commits.
pub fn has_commits<G: GitRunner>(repo: &str, git: &G) -> (r: bool)
    ensures
        exists|out: Option<GitOutput>| #[trigger]
            git.may_answer(repo@, head_exists_args(), out) && r == succeeded(out),
{
    let args = ["rev-parse", "--verify", "HEAD"];
    assert(texts(args@) =~= head_exists_args());
    let out = git.run_git(repo, &args);
    succeeded_output(&out)
}

/// The arguments that ask for the upstream of the checked-out branch.
pub open spec fn upstream_args() -> Seq<Seq<char>> {
    seq!["rev-parse"@, "--abbrev-ref"@, "--symbolic-full-name"@, "@{u}"@]
}

/// The upstream of the branch that is checked out in `repo`, if it has one.
pub fn upstream_ref<G: GitRunner>(repo: &str, git: &G) -> (r: Option<String>)
    ensures
        exists|out: Option<GitOutput>| #[trigger]
            git.may_answer(repo@, upstream_args(), out) && opt_text(r) == branch_of(out),
{
    let args = ["rev-parse", "--abbrev-ref", "--symbolic-full-name", "@{u}"];
    assert(texts(args@) =~= upstream_args());
    let out = git.run_git(repo, &args);
    branch_from_output(&out)
}

/// The count that a text holds, or zero where it holds no number.
pub open spec fn count_or_zero(s: Seq<char>) -> u64 {
    match parsed_u64(trim(s)) {
        Some(n) => n,
        None => 0,
    }
}

/// Computes `count_or_zero`.
pub fn read_count(s: &str) -> (n: u64)
    ensures
        n == count_or_zero(s@),
{
    let v = chars_of(s);
    assert(v@.subrange(0, v.len() as int) =~= v@);
    let (a, b) = trim_bounds(&v, 0, v.len());
    match parse_u64(&v, a, b) {
        Some(n) => n,
        None => 0,
    }
}

/// The lead that a run of the revision counter reports: its count where it
/// succeeded, with an unreadable count taken for zero.
pub open spec fn lead_of(out: Option<GitOutput>) -> Option<u64> {
    match out {
        Some(o) => if o.success {
            Some(count_or_zero(o.stdout@))
        } else {
            None
        },
        None => None,
    }
}

/// The number of commits that the checked-out branch has and `uref` lacks.
pub fn count_ahead<G: GitRunner>(repo: &str, git: &G, uref: &str) -> (r: Option<u64>)
    ensures
        exists|out: Option<GitOutput>| #[trigger]
            git.may_answer(repo@, ahead_args("HEAD"@, uref@), out) && r == lead_of(out),
{
    let range = range_argument("HEAD", uref);
    let args = ["rev-list", "--count", range.as_str()];
    assert(texts(args@) =~= ahead_args("HEAD"@, uref@));
    let out = git.run_git(repo, &args);
    let r = match &out {
        Some(o) => {
            if o.success {
                Some(read_count(o.stdout.as_str()))
            } else {
                None
            }
        },
        None => None,
    };
    assert(r == lead_of(out));
    r
}

/// The ages of the oldest and the newest commit that the checked-out branch
/// has and `uref` lacks.
pub fn commit_age_bounds<G: GitRunner, C: Clock>(repo: &str, git: &G, clock: &C, uref: &str) -> (r:
    Option<(Option<u64>, Option<u64>)>)
    ensures
        exists|out: Option<GitOutput>, now: i64| #[trigger]
            ages_answered(*git, *clock, repo@, "HEAD"@, uref@, out, now, r),
{
    commit_age_bounds_for_ref_pair(repo, git, clock, "HEAD", uref)
}

/// How far the checked-out branch is ahead of its upstream, and the ages of
/// the oldest and the newest commit that it is ahead by.
#[derive(Debug, Clone, Copy, PartialEq, Eq, Structural)]
pub struct PushMetrics {
    pub ahead: u64,
    pub earliest_age: Option<u64>,
    pub latest_age: Option<u64>,
}

/// What there is to push, given the upstream, the lead and the age bounds as
/// far as they could be had: nothing without an upstream, without a lead,
/// with a lead of zero, or without age bounds.
pub open spec fn push_metrics_of(
    upstream: Option<Seq<char>>,
    lead: Option<u64>,
    bounds: Option<(Option<u64>, Option<u64>)>,
) -> Option<PushMetrics> {
    match (upstream, lead, bounds) {
        (Some(_), Some(ahead), Some(b)) => if ahead == 0 {
            None
        } else {
            Some(PushMetrics { ahead, earliest_age: b.0, latest_age: b.1 })
        },
        _ => None,
    }
}

/// Whether `r` is what three runs in `repo` say there is to push: the run
/// that names the upstream, the run that counts the lead over it, and the
/// run that lists the timestamps of the lead. The lead is counted only where
/// there is an upstream, and the timestamps are listed only where there is
/// a lead.
pub open spec fn push_answered<G: GitRunner, C: Clock>(
    git: G,
    clock: C,
    repo: Seq<char>,
    named: Option<GitOutput>,
    counted: Option<GitOutput>,
    logged: Option<GitOutput>,
    now: i64,
    r: Option<PushMetrics>,
) -> bool {
    &&& git.may_answer(repo, upstream_args(), named)
    &&& match branch_of(named) {
        None => r is None,
        Some(uref) => {
            &&& git.may_answer(repo, ahead_args("HEAD"@, uref), counted)
            &&& match lead_of(counted) {
                None => r is None,
                Some(ahead) => if ahead == 0 {
                    r is None
                } else {
                    &&& git.may_answer(repo, log_args("HEAD"@, uref), logged)
                    &&& succeeded(logged) ==> clock.may_read(now)
                    &&& r == push_metrics_of(
                        Some(uref),
                        Some(ahead),
                        age_bounds_of(logged, epoch_secs(now)),
                    )
                },
            }
        },
    }
}

/// What the checked-out branch of `repo` has to push.
pub fn push_metrics<G: GitRunner, C: Clock>(repo: &str, git: &G, clock: &C) -> (r: Option<
    PushMetrics,
>)
    ensures
        exists|
            named: Option<GitOutput>,
            counted: Option<GitOutput>,
            logged: Option<GitOutput>,
            now: i64,
        | #[trigger]
            push_answered(*git, *clock, repo@, named, counted, logged, now, r),
        r is Some ==> r->0.ahead > 0,
{
    let upstream = upstream_ref(repo, git);
    let ghost named = choose|out: Option<GitOutput>| #[trigger]
        git.may_answer(repo@, upstream_args(), out) && opt_text(upstream) == branch_of(out);
    let uref = match upstream {
        Some(u) => u,
        None => {
            assert(push_answered(*git, *clock, repo@, named, None, None, 0, None));
            return None;
        },
    };
    let lead = count_ahead(repo, git, uref.as_str());
    let ghost counted = choose|out: Option<GitOutput>| #[trigger]
        git.may_answer(repo@, ahead_args("HEAD"@, uref@), out) && lead == lead_of(out);
    let ahead = match lead {
        Some(n) => n,
        None => {
            assert(push_answered(*git, *clock, repo@, named, counted, None, 0, None));
            return None;
        },
    };
    if ahead == 0 {
        assert(push_answered(*git, *clock, repo@, named, counted, None, 0, None));
        return None;
    }
    let bounds = commit_age_bounds(repo, git, clock, uref.as_str());
    let ghost (logged, now) = choose|out: Option<GitOutput>, now: i64| #[trigger]
        ages_answered(*git, *clock, repo@, "HEAD"@, uref@, out, now, bounds);
    let r = match bounds {
        Some(b) => Some(PushMetrics { ahead, earliest_age: b.0, latest_age: b.1 }),
        None => None,
    };
    assert(push_answered(*git, *clock, repo@, named, counted, logged, now, r));
    r
}

/// Whether the checked-out branch is ahead of its upstream, and whether it
/// has an upstream at all, as two runs say: the one that names the upstream,
/// and the one that counts the lead, whose count is read whether or not the
/// run succeeded.
pub open spec fn ahead_state_of(named: Option<GitOutput>, counted: Option<GitOutput>) -> (
    bool,
    bool,
) {
    match (branch_of(named), counted) {
        (Some(_), Some(c)) => (count_or_zero(c.stdout@) > 0, true),
        _ => (false, false),
    }
}

/// Whether `r` is what two runs in `repo` say of the lead of the checked-out
/// branch; the lead is counted only where there is an upstream.
pub open spec fn ahead_answered<G: GitRunner>(
    git: G,
    repo: Seq<char>,
    named: Option<GitOutput>,
    counted: Option<GitOutput>,
    r: (bool, bool),
) -> bool {
    &&& git.may_answer(repo, upstream_args(), named)
    &&& match branch_of(named) {
        Some(uref) => git.may_answer(repo, ahead_args("HEAD"@, uref), counted),
        None => counted is None,
    }
    &&& r == ahead_state_of(named, counted)
}

/// Whether the checked-out branch of `repo` is ahead of its upstream, and
/// whether it has one.
pub fn ahead_of_upstream<G: GitRunner>(repo: &str, git: &G) -> (r: (bool, bool))
    ensures
        exists|named: Option<GitOutput>, counted: Option<GitOutput>| #[trigger]
            ahead_answered(*git, repo@, named, counted, r),
{
    let args = ["rev-parse", "--abbrev-ref", "--symbolic-full-name", "@{u}"];
    assert(texts(args@) =~= upstream_args());
    let named = git.run_git(repo, &args);
    let upstream = match branch_from_output(&named) {
        Some(u) => u,
        None => {
            assert(ahead_answered(*git, repo@, named, None, (false, false)));
            return (false, false);
        },
    };
    let range = range_argument("HEAD", upstream.as_str());
    let args = ["rev-list", "--count", range.as_str()];
    assert(texts(args@) =~= ahead_args("HEAD"@, upstream@));
    let counted = git.run_git(repo, &args);
    let r = match &counted {
        Some(c) => (read_count(c.stdout.as_str()) > 0, true),
        None => (false, false),
    };
    assert(ahead_answered(*git, repo@, named, counted, r));
    r
}

} // verus!
