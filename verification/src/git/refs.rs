//! Branches, their upstreams, and how far one is ahead of the other.

use vstd::prelude::*;
use crate::git::runner::{GitOutput, GitRunner};
use crate::order::texts;
use crate::system::Clock;
use crate::text::{
    after_first_word, chars_of, first_word, line_spans, lines, parse_u64, parsed_u64, pieces,
    push_str, spans_within, string_of, trim, trim_bounds, word_bounds,
};
use crate::types::opt_text;

verus! {

/// The branch that a run of the tool names: its output without the white
/// space around it, where the run succeeded and anything is left.
pub open spec fn branch_of(out: Option<GitOutput>) -> Option<Seq<char>> {
    match out {
        Some(o) => if o.success && trim(o.stdout@).len() > 0 {
            Some(trim(o.stdout@))
        } else {
            None
        },
        None => None,
    }
}

/// Reads the branch name off a run's output.
pub fn branch_from_output(out: &Option<GitOutput>) -> (r: Option<String>)
    ensures
        opt_text(r) == branch_of(*out),
{
    match out {
        Some(o) => {
            if !o.success {
                return None;
            }
            let v = chars_of(o.stdout.as_str());
            assert(v@.subrange(0, v.len() as int) =~= v@);
            let (a, b) = trim_bounds(&v, 0, v.len());
            if a < b {
                Some(string_of(&v, a, b))
            } else {
                None
            }
        },
        None => None,
    }
}

/// The arguments that ask for the name of the checked-out branch.
pub open spec fn head_name_args() -> Seq<Seq<char>> {
    seq!["rev-parse"@, "--abbrev-ref"@, "HEAD"@]
}

/// The branch that is checked out in `repo`, if the tool names one.
pub fn current_branch<G: GitRunner>(repo: &str, git: &G) -> (r: Option<String>)
    ensures
        exists|out: Option<GitOutput>| #[trigger]
            git.may_answer(repo@, head_name_args(), out) && opt_text(r) == branch_of(out),
{
    let args = ["rev-parse", "--abbrev-ref", "HEAD"];
    assert(texts(args@) =~= head_name_args());
    let out = git.run_git(repo, &args);
    branch_from_output(&out)
}

/// The branch and the upstream that a line of the branch listing names: its
/// first two words. A line with fewer names no pair.
pub open spec fn branch_pair(line: Seq<char>) -> Option<(Seq<char>, Seq<char>)> {
    let branch = first_word(line);
    let upstream = first_word(after_first_word(line));
    if branch.len() > 0 && upstream.len() > 0 {
        Some((branch, upstream))
    } else {
        None
    }
}

/// The pairs that the lines of a branch listing name, in order.
pub open spec fn branch_pairs(ls: Seq<Seq<char>>) -> Seq<(Seq<char>, Seq<char>)>
    decreases ls.len(),
{
    if ls.len() == 0 {
        Seq::empty()
    } else {
        match branch_pair(ls.last()) {
            Some(p) => branch_pairs(ls.drop_last()).push(p),
            None => branch_pairs(ls.drop_last()),
        }
    }
}

/// The views of a list of pairs of strings.
pub open spec fn pairs_view(v: Seq<(String, String)>) -> Seq<(Seq<char>, Seq<char>)> {
    v.map_values(|p: (String, String)| (p.0@, p.1@))
}

/// The local branches with an upstream that a run of the listing names; none
/// where the run failed or could not be made.
pub open spec fn branches_of(out: Option<GitOutput>) -> Seq<(Seq<char>, Seq<char>)> {
    match out {
        Some(o) => if o.success {
            branch_pairs(lines(o.stdout@))
        } else {
            Seq::empty()
        },
        None => Seq::empty(),
    }
}

/// Reads the branches and their upstreams off a listing.
pub fn parse_branch_list(s: &str) -> (r: Vec<(String, String)>)
    ensures
        pairs_view(r@) == branch_pairs(lines(s@)),
{
    let v = chars_of(s);
    let spans = line_spans(&v);
    let ghost ls = lines(v@);
    let mut r: Vec<(String, String)> = Vec::new();
    let mut i: usize = 0;
    assert(ls.take(0) =~= Seq::<Seq<char>>::empty());
    assert(pairs_view(r@) =~= Seq::empty());
    while i < spans.len()
        invariant
            i <= spans.len(),
            ls == pieces(v@, spans@),
            spans_within(spans@, v.len() as int),
            pairs_view(r@) == branch_pairs(ls.take(i as int)),
        decreases spans.len() - i,
    {
        let (from, to) = spans[i];
        proof {
            assert(ls.take(i + 1).drop_last() =~= ls.take(i as int));
            assert(ls.take(i + 1).last() == v@.subrange(from as int, to as int));
        }
        let (a, b) = word_bounds(&v, from, to);
        let (c, d) = word_bounds(&v, b, to);
        if a < b && c < d {
            let ghost before = r@;
            let branch = string_of(&v, a, b);
            let upstream = string_of(&v, c, d);
            r.push((branch, upstream));
            assert(pairs_view(r@) =~= pairs_view(before).push((branch@, upstream@)));
        }
        i += 1;
    }
    assert(ls.take(spans.len() as int) =~= ls);
    r
}

/// Reads the branches and their upstreams off a run of the listing.
pub fn branches_from_output(out: &Option<GitOutput>) -> (r: Vec<(String, String)>)
    ensures
        pairs_view(r@) == branches_of(*out),
{
    match out {
        Some(o) => {
            if o.success {
                parse_branch_list(o.stdout.as_str())
            } else {
                let r: Vec<(String, String)> = Vec::new();
                assert(pairs_view(r@) =~= Seq::empty());
                r
            }
        },
        None => {
            let r: Vec<(String, String)> = Vec::new();
            assert(pairs_view(r@) =~= Seq::empty());
            r
        },
    }
}

/// The arguments that ask for every local branch and its upstream.
pub open spec fn branch_list_args() -> Seq<Seq<char>> {
    seq!["for-each-ref"@, "--format=%(refname:short) %(upstream:short)"@, "refs/heads"@]
}

/// The local branches of `repo` that have an upstream, each with it.
pub fn list_local_branches_with_upstream<G: GitRunner>(repo: &str, git: &G) -> (r: Vec<
    (String, String),
>)
    ensures
        exists|out: Option<GitOutput>| #[trigger]
            git.may_answer(repo@, branch_list_args(), out) && pairs_view(r@) == branches_of(out),
{
    let args = ["for-each-ref", "--format=%(refname:short) %(upstream:short)", "refs/heads"];
    assert(texts(args@) =~= branch_list_args());
    let out = git.run_git(repo, &args);
    branches_from_output(&out)
}

/// Whether a run was made and succeeded.
pub open spec fn succeeded(out: Option<GitOutput>) -> bool {
    match out {
        Some(o) => o.success,
        None => false,
    }
}

/// The arguments that fetch `remote`, pruning, without tags.
pub open spec fn fetch_args(remote: Seq<char>) -> Seq<Seq<char>> {
    seq!["fetch"@, "--prune"@, "--no-tags"@, remote]
}

/// Fetches `remote` into `repo`, pruning, without tags. Failure is reported,
/// never raised.
pub fn fetch_remote<G: GitRunner>(repo: &str, git: &G, remote: &str) -> (r: bool)
    ensures
        exists|out: Option<GitOutput>| #[trigger]
            git.may_answer(repo@, fetch_args(remote@), out) && r == succeeded(out),
{
    let args = ["fetch", "--prune", "--no-tags", remote];
    assert(texts(args@) =~= fetch_args(remote@));
    let out = git.run_git(repo, &args);
    let r = match &out {
        Some(o) => o.success,
        None => false,
    };
    assert(r == succeeded(out));
    r
}

/// The revision range `upstream..branch`.
pub fn range_argument(branch: &str, upstream: &str) -> (r: String)
    ensures
        r@ == upstream@ + ".."@ + branch@,
{
    let mut r = String::new();
    push_str(&mut r, upstream);
    push_str(&mut r, "..");
    push_str(&mut r, branch);
    assert(r@ =~= upstream@ + ".."@ + branch@);
    r
}

/// The count that a run of the revision counter reports.
pub open spec fn ahead_of(out: Option<GitOutput>) -> Option<u64> {
    match out {
        Some(o) => if o.success {
            parsed_u64(trim(o.stdout@))
        } else {
            None
        },
        None => None,
    }
}

/// Reads the count off a run of the revision counter.
pub fn ahead_from_output(out: &Option<GitOutput>) -> (r: Option<u64>)
    ensures
        r == ahead_of(*out),
{
    match out {
        Some(o) => {
            if !o.success {
                return None;
            }
            let v = chars_of(o.stdout.as_str());
            assert(v@.subrange(0, v.len() as int) =~= v@);
            let (a, b) = trim_bounds(&v, 0, v.len());
            parse_u64(&v, a, b)
        },
        None => None,
    }
}

/// The arguments that count the commits that `branch` has and `upstream` lacks.
pub open spec fn ahead_args(branch: Seq<char>, upstream: Seq<char>) -> Seq<Seq<char>> {
    seq!["rev-list"@, "--count"@, upstream + ".."@ + branch]
}

/// The number of commits that `branch` has and `upstream` lacks.
pub fn ahead_count_for_ref_pair<G: GitRunner>(
    repo: &str,
    git: &G,
    branch: &str,
    upstream: &str,
) -> (r: Option<u64>)
    ensures
        exists|out: Option<GitOutput>| #[trigger]
            git.may_answer(repo@, ahead_args(branch@, upstream@), out) && r == ahead_of(out),
{
    let range = range_argument(branch, upstream);
    let args = ["rev-list", "--count", range.as_str()];
    assert(texts(args@) =~= ahead_args(branch@, upstream@));
    let out = git.run_git(repo, &args);
    ahead_from_output(&out)
}

/// The age at `now` of the commit whose timestamp a line holds; a commit
/// from the future has age zero. `None` where the line holds no number.
pub open spec fn commit_age(line: Seq<char>, now: u64) -> Option<u64> {
    match parsed_u64(trim(line)) {
        Some(ts) => Some(
            if ts >= now {
                0
            } else {
                (now - ts) as u64
            },
        ),
        None => None,
    }
}

/// The greatest of the commit ages that the lines hold.
pub open spec fn oldest_age(ls: Seq<Seq<char>>, now: u64) -> Option<u64>
    decreases ls.len(),
{
    if ls.len() == 0 {
        None
    } else {
        let rest = oldest_age(ls.drop_last(), now);
        match (commit_age(ls.last(), now), rest) {
            (None, _) => rest,
            (Some(a), Some(r)) => Some(
                if r > a {
                    r
                } else {
                    a
                },
            ),
            (Some(a), None) => Some(a),
        }
    }
}

/// The least of the commit ages that the lines hold.
pub open spec fn newest_age(ls: Seq<Seq<char>>, now: u64) -> Option<u64>
    decreases ls.len(),
{
    if ls.len() == 0 {
        None
    } else {
        let rest = newest_age(ls.drop_last(), now);
        match (commit_age(ls.last(), now), rest) {
            (None, _) => rest,
            (Some(a), Some(r)) => Some(
                if r < a {
                    r
                } else {
                    a
                },
            ),
            (Some(a), None) => Some(a),
        }
    }
}

/// The oldest age bounds every age in the lines, the newest is bounded by
/// every one, and either both are there or neither.
pub proof fn lemma_age_bounds(ls: Seq<Seq<char>>, now: u64)
    ensures
        oldest_age(ls, now) is Some <==> newest_age(ls, now) is Some,
        oldest_age(ls, now) is Some <==> exists|i: int|
            0 <= i < ls.len() && commit_age(#[trigger] ls[i], now) is Some,
        forall|i: int|
            0 <= i < ls.len() && commit_age(#[trigger] ls[i], now) is Some ==> newest_age(
                ls,
                now,
            )->0 <= commit_age(ls[i], now)->0 <= oldest_age(ls, now)->0,
        oldest_age(ls, now) is Some ==> exists|i: int|
            0 <= i < ls.len() && commit_age(#[trigger] ls[i], now) == oldest_age(ls, now),
        newest_age(ls, now) is Some ==> exists|i: int|
            0 <= i < ls.len() && commit_age(#[trigger] ls[i], now) == newest_age(ls, now),
    decreases ls.len(),
{
    if ls.len() > 0 {
        let init = ls.drop_last();
        lemma_age_bounds(init, now);
        assert forall|i: int| 0 <= i < init.len() implies init[i] == ls[i] by {}
        let last = ls.len() - 1;
        if commit_age(ls[last], now) is Some {
            assert(commit_age(ls[last], now) is Some);
        }
        if oldest_age(init, now) is Some {
            let i = choose|i: int|
                0 <= i < init.len() && commit_age(#[trigger] init[i], now) == oldest_age(init, now);
            assert(ls[i] == init[i]);
            let j = choose|j: int|
                0 <= j < init.len() && commit_age(#[trigger] init[j], now) == newest_age(init, now);
            assert(ls[j] == init[j]);
        }
        if oldest_age(ls, now) is Some {
            if oldest_age(ls, now) == commit_age(ls[last], now) {
                assert(commit_age(ls[last], now) == oldest_age(ls, now));
            }
            if newest_age(ls, now) == commit_age(ls[last], now) {
                assert(commit_age(ls[last], now) == newest_age(ls, now));
            }
        }
    }
}

/// The ages of the oldest and of the newest commit that a run of the log
/// lists, in that order; `None` where the run failed or could not be made.
pub open spec fn age_bounds_of(out: Option<GitOutput>, now: u64) -> Option<
    (Option<u64>, Option<u64>),
> {
    match out {
        Some(o) => if o.success {
            Some((oldest_age(lines(o.stdout@), now), newest_age(lines(o.stdout@), now)))
        } else {
            None
        },
        None => None,
    }
}

/// Reads the age bounds off a log of commit timestamps, one to a line.
pub fn parse_age_bounds(s: &str, now: u64) -> (r: (Option<u64>, Option<u64>))
    ensures
        r.0 == oldest_age(lines(s@), now),
        r.1 == newest_age(lines(s@), now),
{
    let v = chars_of(s);
    let spans = line_spans(&v);
    let ghost ls = lines(v@);
    let mut oldest: Option<u64> = None;
    let mut newest: Option<u64> = None;
    let mut i: usize = 0;
    assert(ls.take(0) =~= Seq::<Seq<char>>::empty());
    while i < spans.len()
        invariant
            i <= spans.len(),
            ls == pieces(v@, spans@),
            spans_within(spans@, v.len() as int),
            oldest == oldest_age(ls.take(i as int), now),
            newest == newest_age(ls.take(i as int), now),
        decreases spans.len() - i,
    {
        let (from, to) = spans[i];
        proof {
            assert(ls.take(i + 1).drop_last() =~= ls.take(i as int));
            assert(ls.take(i + 1).last() == v@.subrange(from as int, to as int));
        }
        let (a, b) = trim_bounds(&v, from, to);
        if let Some(ts) = parse_u64(&v, a, b) {
            let age = now.saturating_sub(ts);
            oldest = match oldest {
                Some(cur) => if cur > age {
                    Some(cur)
                } else {
                    Some(age)
                },
                None => Some(age),
            };
            newest = match newest {
                Some(cur) => if cur < age {
                    Some(cur)
                } else {
                    Some(age)
                },
                None => Some(age),
            };
        }
        i += 1;
    }
    assert(ls.take(spans.len() as int) =~= ls);
    (oldest, newest)
}

/// Reads the age bounds off a run of the log.
pub fn age_bounds_from_output(out: &Option<GitOutput>, now: u64) -> (r: Option<
    (Option<u64>, Option<u64>),
>)
    ensures
        r == age_bounds_of(*out, now),
{
    match out {
        Some(o) => {
            if o.success {
                Some(parse_age_bounds(o.stdout.as_str(), now))
            } else {
                None
            }
        },
        None => None,
    }
}

/// Seconds since the epoch as a count: a time before the epoch counts as the epoch.
pub open spec fn epoch_secs(now: i64) -> u64 {
    if now < 0 {
        0
    } else {
        now as u64
    }
}

/// The arguments that list the timestamps of the commits that `branch` has
/// and `upstream` lacks.
pub open spec fn log_args(branch: Seq<char>, upstream: Seq<char>) -> Seq<Seq<char>> {
    seq!["log"@, "--format=%ct"@, upstream + ".."@ + branch]
}

/// Whether `r` are the age bounds that the tool and the clock give for the
/// commits that `branch` has and `upstream` lacks: `out` is how the listing
/// of their timestamps ended, and `now` is what the clock showed, which is
/// read only after a listing that succeeded.
pub open spec fn ages_answered<G: GitRunner, C: Clock>(
    git: G,
    clock: C,
    repo: Seq<char>,
    branch: Seq<char>,
    upstream: Seq<char>,
    out: Option<GitOutput>,
    now: i64,
    r: Option<(Option<u64>, Option<u64>)>,
) -> bool {
    &&& git.may_answer(repo, log_args(branch, upstream), out)
    &&& succeeded(out) ==> clock.may_read(now)
    &&& r == age_bounds_of(out, epoch_secs(now))
}

/// The ages of the oldest and the newest commit that `branch` has and
/// `upstream` lacks, measured at the clock's time.
pub fn commit_age_bounds_for_ref_pair<G: GitRunner, C: Clock>(
    repo: &str,
    git: &G,
    clock: &C,
    branch: &str,
    upstream: &str,
) -> (r: Option<(Option<u64>, Option<u64>)>)
    ensures
        exists|out: Option<GitOutput>, now: i64| #[trigger]
            ages_answered(*git, *clock, repo@, branch@, upstream@, out, now, r),
{
    let range = range_argument(branch, upstream);
    let args = ["log", "--format=%ct", range.as_str()];
    assert(texts(args@) =~= log_args(branch@, upstream@));
    let out = git.run_git(repo, &args);
    if !succeeded_output(&out) {
        assert(ages_answered(*git, *clock, repo@, branch@, upstream@, out, 0, None));
        return None;
    }
    let now = clock.now();
    let now_secs: u64 = if now < 0 {
        0
    } else {
        now as u64
    };
    let r = age_bounds_from_output(&out, now_secs);
    assert(ages_answered(*git, *clock, repo@, branch@, upstream@, out, now, r));
    r
}

/// Decides `succeeded`.
pub fn succeeded_output(out: &Option<GitOutput>) -> (r: bool)
    ensures
        r == succeeded(*out),
{
    match out {
        Some(o) => o.success,
        None => false,
    }
}

} // verus!
