//! What one repository adds to the report.

use vstd::prelude::*;
use crate::git::metrics::{
    dirty_answered, has_staged, has_uncommitted, metrics_answered, quiet_diff_args, staged_metrics,
    staged_of, uncommitted_metrics, ChangeMetrics,
};
use crate::git::refs::{
    age_bounds_of, ages_answered, ahead_args, ahead_count_for_ref_pair, ahead_of, branch_list_args, branch_of,
    branches_of, commit_age_bounds_for_ref_pair, current_branch, epoch_secs, fetch_remote,
    head_name_args, list_local_branches_with_upstream, log_args, pairs_view,
};
use crate::git::runner::{GitOutput, GitRunner};
use crate::order::compare_text;
use crate::scan::merged;
use crate::system::Clock;
use crate::text::{chars_of, find, find_char, string_of};
use crate::types::{
    views, ChangeView, Options, PushableEntry, PushableView, RepoSummary, RepoSummaryView,
    ReportData, ReportView, StagedEntry, UncommittedEntry,
};

verus! {

/// The search root that a repository was found under.
#[derive(Debug, Clone, Copy)]
pub struct RootContext<'a> {
    /// The root as the caller wrote it.
    pub display: &'a str,
    /// The root as an absolute path.
    pub full: &'a str,
}

/// The entry for a repository with changes of the size `metrics`.
pub open spec fn change_entry_of(
    name: Seq<char>,
    branch: Seq<char>,
    metrics: ChangeMetrics,
    root_display: Seq<char>,
    root_full: Seq<char>,
) -> ChangeView {
    ChangeView {
        repo: name,
        branch,
        lines: metrics.lines,
        files: metrics.files,
        untracked: metrics.untracked,
        root_display,
        root_full,
    }
}

/// Whether `dirty` is what the tool says of the changes of `repo`: of its
/// index where `staged`, of its working tree otherwise.
pub open spec fn is_dirty_answer<G: GitRunner>(
    git: G,
    repo: Seq<char>,
    staged: bool,
    include_untracked: bool,
    dirty: bool,
) -> bool {
    if staged {
        exists|diff: Option<GitOutput>| #[trigger]
            git.may_answer(repo, quiet_diff_args(true), diff) && dirty == staged_of(diff)
    } else {
        exists|diff: Option<GitOutput>, others: Option<GitOutput>| #[trigger]
            dirty_answered(git, repo, include_untracked, diff, others, dirty)
    }
}

/// Whether `m` is the size that the tool gives for the changes of `repo`.
pub open spec fn is_metrics_answer<G: GitRunner>(
    git: G,
    repo: Seq<char>,
    staged: bool,
    include_untracked: bool,
    m: ChangeMetrics,
) -> bool {
    exists|numstat: Option<GitOutput>, others: Option<GitOutput>| #[trigger]
        metrics_answered(git, repo, staged, include_untracked, numstat, others, m)
}

/// Whether `after` is `before` with the changes of `repo` noted: where the
/// tool says that there are changes, an entry with their size is added, and
/// nothing is added otherwise. The size is asked for only where there are
/// changes.
pub open spec fn changes_noted<G: GitRunner>(
    git: G,
    repo: Seq<char>,
    staged: bool,
    include_untracked: bool,
    ctx: RepoContext,
    before: Seq<ChangeView>,
    after: Seq<ChangeView>,
) -> bool {
    exists|dirty: bool| #[trigger]
        is_dirty_answer(git, repo, staged, include_untracked, dirty) && if dirty {
            exists|m: ChangeMetrics| #[trigger]
                is_metrics_answer(git, repo, staged, include_untracked, m) && after
                    == before.push(
                    change_entry_of(ctx.name, ctx.head_branch, m, ctx.root_display, ctx.root_full),
                )
        } else {
            after == before
        }
}

/// Notes the uncommitted changes of `repo`, if it has any.
pub fn record_uncommitted<G: GitRunner>(
    repo: &str,
    name: &str,
    branch: &str,
    opts: &Options,
    git: &G,
    root_display: &str,
    root_full: &str,
    data: &mut ReportData,
)
    ensures
        changes_noted(
            *git,
            repo@,
            false,
            !opts.no_untracked,
            RepoContext {
                name: name@,
                head_branch: branch@,
                root_display: root_display@,
                root_full: root_full@,
            },
            old(data)@.uncommitted,
            final(data)@.uncommitted,
        ),
        final(data)@ == (ReportView { uncommitted: final(data)@.uncommitted, ..old(data)@ }),
{
    let dirty = has_uncommitted(repo, !opts.no_untracked, git);
    assert(is_dirty_answer(*git, repo@, false, !opts.no_untracked, dirty));
    if !dirty {
        return ;
    }
    let metrics = uncommitted_metrics(repo, !opts.no_untracked, git);
    assert(is_metrics_answer(*git, repo@, false, !opts.no_untracked, metrics));
    let ghost before = views(data.uncommitted@);
    let entry = UncommittedEntry {
        repo: name.to_owned(),
        branch: branch.to_owned(),
        lines: metrics.lines,
        files: metrics.files,
        untracked: metrics.untracked,
        root_display: root_display.to_owned(),
        root_full: root_full.to_owned(),
    };
    assert(entry@ == change_entry_of(name@, branch@, metrics, root_display@, root_full@));
    data.uncommitted.push(entry);
    assert(views(data.uncommitted@) =~= before.push(entry@));
}

/// Notes the staged changes of `repo`, if it has any.
pub fn record_staged<G: GitRunner>(
    repo: &str,
    name: &str,
    branch: &str,
    git: &G,
    root_display: &str,
    root_full: &str,
    data: &mut ReportData,
)
    ensures
        changes_noted(
            *git,
            repo@,
            true,
            true,
            RepoContext {
                name: name@,
                head_branch: branch@,
                root_display: root_display@,
                root_full: root_full@,
            },
            old(data)@.staged,
            final(data)@.staged,
        ),
        final(data)@ == (ReportView { staged: final(data)@.staged, ..old(data)@ }),
{
    let dirty = has_staged(repo, git);
    assert(is_dirty_answer(*git, repo@, true, true, dirty));
    if !dirty {
        return ;
    }
    let metrics = staged_metrics(repo, git);
    assert(is_metrics_answer(*git, repo@, true, true, metrics));
    let ghost before = views(data.staged@);
    let entry = StagedEntry {
        repo: name.to_owned(),
        branch: branch.to_owned(),
        lines: metrics.lines,
        files: metrics.files,
        untracked: metrics.untracked,
        root_display: root_display.to_owned(),
        root_full: root_full.to_owned(),
    };
    assert(entry@ == change_entry_of(name@, branch@, metrics, root_display@, root_full@));
    data.staged.push(entry);
    assert(views(data.staged@) =~= before.push(entry@));
}

/// The remote that an upstream belongs to: what stands before its first
/// slash. An upstream without a slash names no remote.
pub open spec fn remote_of(upstream: Seq<char>) -> Option<Seq<char>> {
    let k = find(upstream, '/');
    if 0 <= k < upstream.len() {
        Some(upstream.take(k))
    } else {
        None
    }
}

/// The remotes that the upstreams of the branches belong to, one after the other.
pub open spec fn named_remotes(branches: Seq<(Seq<char>, Seq<char>)>) -> Seq<Seq<char>>
    decreases branches.len(),
{
    if branches.len() == 0 {
        Seq::empty()
    } else {
        match remote_of(branches.last().1) {
            Some(remote) => named_remotes(branches.drop_last()).push(remote),
            None => named_remotes(branches.drop_last()),
        }
    }
}

/// The remotes to fetch for a list of branches: every remote that an
/// upstream belongs to, once, in the order in which they first occur.
pub open spec fn remotes_of(branches: Seq<(Seq<char>, Seq<char>)>) -> Seq<Seq<char>> {
    merged(Seq::empty(), named_remotes(branches))
}

/// Computes `remotes_of`.
pub fn remote_names(branches: &Vec<(String, String)>) -> (r: Vec<String>)
    ensures
        views(r@) == remotes_of(pairs_view(branches@)),
{
    let ghost bs = pairs_view(branches@);
    let mut named: Vec<String> = Vec::new();
    let mut i: usize = 0;
    proof {
        assert(bs.take(0) =~= Seq::empty());
        assert(views(named@) =~= Seq::<Seq<char>>::empty());
    }
    while i < branches.len()
        invariant
            i <= branches.len(),
            bs == pairs_view(branches@),
            views(named@) == named_remotes(bs.take(i as int)),
        decreases branches.len() - i,
    {
        proof {
            assert(bs.take(i + 1).drop_last() =~= bs.take(i as int));
            assert(bs.take(i + 1).last() == bs[i as int]);
        }
        let v = chars_of(branches[i].1.as_str());
        assert(v@.subrange(0, v.len() as int) =~= v@);
        let k = find_char(&v, 0, v.len(), '/');
        if k < v.len() {
            let ghost before = views(named@);
            let remote = string_of(&v, 0, k);
            assert(remote@ =~= v@.take(k as int));
            named.push(remote);
            assert(views(named@) =~= before.push(v@.take(k as int)));
        }
        i += 1;
    }
    assert(bs.take(branches.len() as int) =~= bs);
    let mut r: Vec<String> = Vec::new();
    assert(views(r@) =~= Seq::<Seq<char>>::empty());
    crate::scan::merge_discovered(&mut r, named);
    r
}

/// Fetches every remote that the branches refer to, once each, where the
/// options ask for it. Failures pass unnoticed.
pub fn refresh_remotes<G: GitRunner>(
    repo: &str,
    opts: &Options,
    git: &G,
    branches: &Vec<(String, String)>,
) {
    if !opts.refresh_remotes || branches.len() == 0 {
        return ;
    }
    let remotes = remote_names(branches);
    let mut i: usize = 0;
    while i < remotes.len()
        invariant
            i <= remotes.len(),
        decreases remotes.len() - i,
    {
        let _ = fetch_remote(repo, git, remotes[i].as_str());
        i += 1;
    }
}

/// How far the checked-out branch is ahead of its upstream.
#[derive(Debug, Clone, Copy, PartialEq, Eq, Structural)]
pub struct HeadState {
    pub revs: Option<u64>,
    pub earliest_secs: Option<u64>,
    pub latest_secs: Option<u64>,
}

/// What is known of a branch: how far it is ahead, if that could be counted,
/// and the age bounds of what it is ahead by, if they could be had.
pub struct BranchAnswer {
    pub ahead: Option<u64>,
    pub bounds: Option<(Option<u64>, Option<u64>)>,
}

/// The repository that branches are noted for.
pub struct RepoContext {
    pub name: Seq<char>,
    pub head_branch: Seq<char>,
    pub root_display: Seq<char>,
    pub root_full: Seq<char>,
}

/// The head state and the pushable entries after one more branch. A branch
/// whose lead could not be counted changes nothing. The checked-out branch
/// sets the head state. A branch that is ahead gives a pushable entry, with
/// the age bounds where they could be had.
pub open spec fn branch_noted(
    ctx: RepoContext,
    state: (HeadState, Seq<PushableView>),
    branch: Seq<char>,
    answer: BranchAnswer,
) -> (HeadState, Seq<PushableView>) {
    match answer.ahead {
        None => state,
        Some(ahead) => {
            let is_head = branch == ctx.head_branch;
            let bounds = match answer.bounds {
                Some(b) => b,
                None => (None, None),
            };
            if ahead == 0 {
                (
                    if is_head {
                        HeadState { revs: Some(ahead), ..state.0 }
                    } else {
                        state.0
                    },
                    state.1,
                )
            } else {
                (
                    if is_head {
                        HeadState {
                            revs: Some(ahead),
                            earliest_secs: bounds.0,
                            latest_secs: bounds.1,
                        }
                    } else {
                        state.0
                    },
                    state.1.push(
                        PushableView {
                            repo: ctx.name,
                            branch,
                            revs: ahead,
                            earliest_secs: bounds.0,
                            latest_secs: bounds.1,
                            root_display: ctx.root_display,
                            root_full: ctx.root_full,
                        },
                    ),
                )
            }
        },
    }
}

/// The head state and the pushable entries after the first `n` branches.
pub open spec fn branches_noted(
    ctx: RepoContext,
    start: Seq<PushableView>,
    branches: Seq<(Seq<char>, Seq<char>)>,
    answers: Seq<BranchAnswer>,
    n: int,
) -> (HeadState, Seq<PushableView>)
    decreases n,
{
    if n <= 0 {
        (HeadState { revs: None, earliest_secs: None, latest_secs: None }, start)
    } else {
        branch_noted(
            ctx,
            branches_noted(ctx, start, branches, answers, n - 1),
            branches[n - 1].0,
            answers[n - 1],
        )
    }
}

/// Notes one branch; see `branch_noted`.
pub fn note_branch(
    head: &mut HeadState,
    pushable: &mut Vec<PushableEntry>,
    name: &str,
    head_branch: &str,
    root_display: &str,
    root_full: &str,
    branch: &str,
    ahead: Option<u64>,
    bounds: Option<(Option<u64>, Option<u64>)>,
)
    ensures
        (*final(head), views(final(pushable)@)) == branch_noted(
            RepoContext {
                name: name@,
                head_branch: head_branch@,
                root_display: root_display@,
                root_full: root_full@,
            },
            (*old(head), views(old(pushable)@)),
            branch@,
            BranchAnswer { ahead, bounds },
        ),
{
    let ahead = match ahead {
        Some(n) => n,
        None => {
            return ;
        },
    };
    let is_head = compare_text(branch, head_branch) == 0;
    if is_head {
        head.revs = Some(ahead);
    }
    if ahead == 0 {
        return ;
    }
    let (earliest_secs, latest_secs) = match bounds {
        Some(b) => b,
        None => (None, None),
    };
    if is_head {
        head.earliest_secs = earliest_secs;
        head.latest_secs = latest_secs;
    }
    let ghost before = views(pushable@);
    let entry = PushableEntry {
        repo: name.to_owned(),
        branch: branch.to_owned(),
        revs: ahead,
        earliest_secs,
        latest_secs,
        root_display: root_display.to_owned(),
        root_full: root_full.to_owned(),
    };
    pushable.push(entry);
    assert(views(pushable@) =~= before.push(entry@));
}

/// Whether `answer` is what the tool says of a branch of `repo` and its
/// upstream: the lead as the tool counts it, and the age bounds of the lead,
/// which are asked for only where the branch is ahead.
pub open spec fn is_branch_answer<G: GitRunner, C: Clock>(
    git: G,
    clock: C,
    repo: Seq<char>,
    branch: Seq<char>,
    upstream: Seq<char>,
    answer: BranchAnswer,
) -> bool {
    &&& exists|out: Option<GitOutput>| #[trigger]
        git.may_answer(repo, ahead_args(branch, upstream), out) && answer.ahead == ahead_of(out)
    &&& if answer.ahead is Some && answer.ahead->0 > 0 {
        exists|out: Option<GitOutput>, now: i64| #[trigger]
            ages_answered(git, clock, repo, branch, upstream, out, now, answer.bounds)
    } else {
        answer.bounds is None
    }
}

/// Whether `answers` are what the tool says of the branches of `repo`, one
/// answer for each branch.
pub open spec fn are_branch_answers<G: GitRunner, C: Clock>(
    git: G,
    clock: C,
    repo: Seq<char>,
    branches: Seq<(Seq<char>, Seq<char>)>,
    answers: Seq<BranchAnswer>,
) -> bool {
    &&& answers.len() == branches.len()
    &&& forall|i: int|
        0 <= i < branches.len() ==> is_branch_answer(
            git,
            clock,
            repo,
            branches[i].0,
            branches[i].1,
            #[trigger] answers[i],
        )
}

/// Notes every branch of `repo` that is ahead of its upstream, and returns
/// the head state. The age bounds of a branch are asked for only where the
/// branch is ahead.
pub fn record_pushables<G: GitRunner, C: Clock>(
    repo: &str,
    name: &str,
    head_branch: &str,
    branches: Vec<(String, String)>,
    git: &G,
    clock: &C,
    root_display: &str,
    root_full: &str,
    data: &mut ReportData,
) -> (head: HeadState)
    ensures
        exists|answers: Seq<BranchAnswer>| #[trigger]
            are_branch_answers(*git, *clock, repo@, pairs_view(branches@), answers) && (
                head,
                final(data)@.pushable,
            ) == branches_noted(
                RepoContext {
                    name: name@,
                    head_branch: head_branch@,
                    root_display: root_display@,
                    root_full: root_full@,
                },
                old(data)@.pushable,
                pairs_view(branches@),
                answers,
                branches@.len() as int,
            ),
        final(data)@ == (ReportView { pushable: final(data)@.pushable, ..old(data)@ }),
{
    let ghost ctx = RepoContext {
        name: name@,
        head_branch: head_branch@,
        root_display: root_display@,
        root_full: root_full@,
    };
    let ghost start = data@.pushable;
    let ghost bs = pairs_view(branches@);
    let ghost mut answers: Seq<BranchAnswer> = Seq::empty();
    let mut head = HeadState { revs: None, earliest_secs: None, latest_secs: None };
    let mut pushable: Vec<PushableEntry> = Vec::new();
    std::mem::swap(&mut pushable, &mut data.pushable);
    let mut i: usize = 0;
    while i < branches.len()
        invariant
            i <= branches.len(),
            bs == pairs_view(branches@),
            answers.len() == i,
            forall|k: int|
                0 <= k < i ==> is_branch_answer(*git, *clock, repo@, bs[k].0, bs[k].1, #[trigger] answers[k]),
            (head, views(pushable@)) == branches_noted(ctx, start, bs, answers, i as int),
            ctx == (RepoContext {
                name: name@,
                head_branch: head_branch@,
                root_display: root_display@,
                root_full: root_full@,
            }),
        decreases branches.len() - i,
    {
        let branch = branches[i].0.as_str();
        let upstream = branches[i].1.as_str();
        let ahead = ahead_count_for_ref_pair(repo, git, branch, upstream);
        let wanted = match ahead {
            Some(n) => n > 0,
            None => false,
        };
        let bounds = if wanted {
            commit_age_bounds_for_ref_pair(repo, git, clock, branch, upstream)
        } else {
            None
        };
        let ghost before = answers;
        proof {
            let answer = BranchAnswer { ahead, bounds };
            answers = answers.push(answer);
            lemma_branches_noted_prefix(ctx, start, bs, before, answers, i as int);
            assert(bs[i as int].0 == branch@);
            assert(bs[i as int].1 == upstream@);
            assert(is_branch_answer(*git, *clock, repo@, branch@, upstream@, answer));
            assert forall|k: int| 0 <= k < i + 1 implies is_branch_answer(
                *git,
                *clock,
                repo@,
                bs[k].0,
                bs[k].1,
                #[trigger] answers[k],
            ) by {
                if k < i {
                    assert(answers[k] == before[k]);
                }
            }
        }
        note_branch(
            &mut head,
            &mut pushable,
            name,
            head_branch,
            root_display,
            root_full,
            branch,
            ahead,
            bounds,
        );
        i += 1;
    }
    data.pushable = pushable;
    assert(are_branch_answers(*git, *clock, repo@, bs, answers));
    head
}

/// The first `n` branches are noted alike under two lists of answers that
/// agree on the first `n`.
pub proof fn lemma_branches_noted_prefix(
    ctx: RepoContext,
    start: Seq<PushableView>,
    branches: Seq<(Seq<char>, Seq<char>)>,
    a: Seq<BranchAnswer>,
    b: Seq<BranchAnswer>,
    n: int,
)
    requires
        n <= a.len(),
        n <= b.len(),
        forall|i: int| 0 <= i < n ==> a[i] == b[i],
    ensures
        branches_noted(ctx, start, branches, a, n) == branches_noted(ctx, start, branches, b, n),
    decreases n,
{
    if n > 0 {
        lemma_branches_noted_prefix(ctx, start, branches, a, b, n - 1);
    }
}

/// The summary of a repository.
pub open spec fn summary_of(
    repo: Seq<char>,
    name: Seq<char>,
    branch: Seq<char>,
    head: HeadState,
    root_display: Seq<char>,
    root_full: Seq<char>,
) -> RepoSummaryView {
    RepoSummaryView {
        repo: name,
        branch,
        path: repo,
        root_display,
        root_full,
        head_revs: head.revs,
        head_earliest_secs: head.earliest_secs,
        head_latest_secs: head.latest_secs,
    }
}

/// Adds the summary of a repository to the report.
pub fn add_repo_summary(
    repo: &str,
    name: &str,
    branch: String,
    head: HeadState,
    root_display: &str,
    root_full: &str,
    data: &mut ReportData,
)
    ensures
        final(data)@ == (ReportView {
            repos: old(data)@.repos.push(
                summary_of(repo@, name@, branch@, head, root_display@, root_full@),
            ),
            ..old(data)@
        }),
{
    let ghost before = views(data.repos@);
    let summary = RepoSummary {
        repo: name.to_owned(),
        branch,
        path: repo.to_owned(),
        root_display: root_display.to_owned(),
        root_full: root_full.to_owned(),
        head_revs: head.revs,
        head_earliest_secs: head.earliest_secs,
        head_latest_secs: head.latest_secs,
    };
    data.repos.push(summary);
    assert(views(data.repos@) =~= before.push(summary@));
}

/// Whether `branch` is the name that the checked-out branch of `repo` goes
/// by: the name that the tool gives it, or `HEAD` where it gives none.
pub open spec fn is_head_name<G: GitRunner>(git: G, repo: Seq<char>, branch: Seq<char>) -> bool {
    exists|out: Option<GitOutput>| #[trigger]
        git.may_answer(repo, head_name_args(), out) && branch == match branch_of(out) {
            Some(b) => b,
            None => "HEAD"@,
        }
}

/// Whether `after` is `before` with what one repository adds, given the
/// branch that is checked out in it, its branches and what is known of each.
pub open spec fn repo_added_with<G: GitRunner, C: Clock>(
    git: G,
    clock: C,
    include_untracked: bool,
    before: ReportView,
    after: ReportView,
    repo: Seq<char>,
    ctx: RepoContext,
    branches: Seq<(Seq<char>, Seq<char>)>,
    answers: Seq<BranchAnswer>,
) -> bool {
    let noted = branches_noted(ctx, before.pushable, branches, answers, branches.len() as int);
    &&& is_head_name(git, repo, ctx.head_branch)
    &&& exists|out: Option<GitOutput>| #[trigger]
        git.may_answer(repo, branch_list_args(), out) && branches == branches_of(out)
    &&& are_branch_answers(git, clock, repo, branches, answers)
    &&& changes_noted(
        git,
        repo,
        false,
        include_untracked,
        ctx,
        before.uncommitted,
        after.uncommitted,
    )
    &&& changes_noted(git, repo, true, true, ctx, before.staged, after.staged)
    &&& after.pushable == noted.1
    &&& after.repos == before.repos.push(
        summary_of(repo, ctx.name, ctx.head_branch, noted.0, ctx.root_display, ctx.root_full),
    )
    &&& after == (ReportView {
        uncommitted: after.uncommitted,
        staged: after.staged,
        pushable: after.pushable,
        repos: after.repos,
        ..before
    })
}

/// Whether `after` is `before` with what one repository adds: possibly an
/// uncommitted entry, possibly a staged entry, a pushable entry for each
/// branch that is ahead, and always a summary. The entries carry the
/// repository's name and search root; the branch named in them is the one
/// that the summary names.
pub open spec fn repo_added<G: GitRunner, C: Clock>(
    git: G,
    clock: C,
    include_untracked: bool,
    before: ReportView,
    after: ReportView,
    repo: Seq<char>,
    name: Seq<char>,
    root_display: Seq<char>,
    root_full: Seq<char>,
) -> bool {
    exists|branch: Seq<char>, branches: Seq<(Seq<char>, Seq<char>)>, answers: Seq<BranchAnswer>|
        #[trigger] repo_added_with(
            git,
            clock,
            include_untracked,
            before,
            after,
            repo,
            RepoContext { name, head_branch: branch, root_display, root_full },
            branches,
            answers,
        )
}

/// Adds to the report what the repository at `repo` has to show. A
/// repository whose checked-out branch cannot be named is reported under
/// `HEAD`.
pub fn process_repo<G: GitRunner, C: Clock>(
    repo: &str,
    name: &str,
    root: RootContext<'_>,
    opts: &Options,
    git: &G,
    clock: &C,
    data: &mut ReportData,
)
    ensures
        repo_added(
            *git,
            *clock,
            !opts.no_untracked,
            old(data)@,
            final(data)@,
            repo@,
            name@,
            root.display@,
            root.full@,
        ),
{
    let branch = match current_branch(repo, git) {
        Some(b) => b,
        None => "HEAD".to_owned(),
    };
    assert(is_head_name(*git, repo@, branch@));
    let ghost d0 = data@;
    record_uncommitted(repo, name, branch.as_str(), opts, git, root.display, root.full, data);
    let ghost d1 = data@;
    record_staged(repo, name, branch.as_str(), git, root.display, root.full, data);
    let ghost d2 = data@;
    let branches = list_local_branches_with_upstream(repo, git);
    refresh_remotes(repo, opts, git, &branches);
    let ghost bs = pairs_view(branches@);
    let head = record_pushables(
        repo,
        name,
        branch.as_str(),
        branches,
        git,
        clock,
        root.display,
        root.full,
        data,
    );
    let ghost d3 = data@;
    let ghost b = branch@;
    add_repo_summary(repo, name, branch, head, root.display, root.full, data);
    proof {
        let ctx = RepoContext {
            name: name@,
            head_branch: b,
            root_display: root.display@,
            root_full: root.full@,
        };
        let answers = choose|answers: Seq<BranchAnswer>| #[trigger]
            are_branch_answers(*git, *clock, repo@, bs, answers) && (head, d3.pushable) == branches_noted(
                ctx,
                d2.pushable,
                bs,
                answers,
                bs.len() as int,
            );
        let after = data@;
        let noted = branches_noted(ctx, d0.pushable, bs, answers, bs.len() as int);
        assert(d2.pushable == d0.pushable);
        assert(after.pushable == noted.1);
        assert(after.repos == d0.repos.push(
            summary_of(repo@, name@, b, noted.0, root.display@, root.full@),
        ));
        assert(repo_added_with(*git, *clock, !opts.no_untracked, d0, after, repo@, ctx, bs, answers));
    }
}

} // verus!
