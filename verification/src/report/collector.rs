//! Collecting the report: every search root, every repository under it.

use vstd::prelude::*;
use crate::git::runner::GitRunner;
use crate::paths::{path_is_absolute, path_join};
use crate::report::repository::{
    branches_noted, changes_noted, process_repo, repo_added, repo_added_with, BranchAnswer,
    RepoContext, RootContext,
};
use crate::scan::{discover, is_discovery, RepoHandleView, RootAnswer};
use crate::system::{Clock, FsOps};
use crate::types::{
    opt_text, views, ChangeView, Options, PushableView, RepoSummaryView, ReportData, ReportView,
};

verus! {

/// Whether `after` is `before` with items added at its end, all of which
/// meet `ok`.
pub open spec fn added_under<A>(before: Seq<A>, after: Seq<A>, ok: spec_fn(A) -> bool) -> bool {
    &&& before.len() <= after.len()
    &&& after.take(before.len() as int) =~= before
    &&& forall|i: int| before.len() <= i < after.len() ==> ok(#[trigger] after[i])
}

/// Whether a report has grown by what was found under one search root and
/// by nothing else: the lists of changes, of pushable branches and of
/// repositories have new entries at their ends, each of which names the
/// root; all else is as it was.
pub open spec fn grown_under(
    before: ReportView,
    after: ReportView,
    root_display: Seq<char>,
    root_full: Seq<char>,
) -> bool {
    &&& added_under(
        before.uncommitted,
        after.uncommitted,
        |e: ChangeView| e.root_display == root_display && e.root_full == root_full,
    )
    &&& added_under(
        before.staged,
        after.staged,
        |e: ChangeView| e.root_display == root_display && e.root_full == root_full,
    )
    &&& added_under(
        before.pushable,
        after.pushable,
        |e: PushableView| e.root_display == root_display && e.root_full == root_full,
    )
    &&& added_under(
        before.repos,
        after.repos,
        |e: RepoSummaryView| e.root_display == root_display && e.root_full == root_full,
    )
    &&& after.uncommitted.len() - before.uncommitted.len() <= after.repos.len()
        - before.repos.len()
    &&& after.staged.len() - before.staged.len() <= after.repos.len() - before.repos.len()
    &&& after == (ReportView {
        uncommitted: after.uncommitted,
        staged: after.staged,
        pushable: after.pushable,
        repos: after.repos,
        ..before
    })
}

/// Growing is transitive, and nothing is growth too.
pub proof fn lemma_grown_chain(
    a: ReportView,
    b: ReportView,
    c: ReportView,
    root_display: Seq<char>,
    root_full: Seq<char>,
)
    requires
        grown_under(a, b, root_display, root_full),
        grown_under(b, c, root_display, root_full),
    ensures
        grown_under(a, c, root_display, root_full),
        grown_under(a, a, root_display, root_full),
{
    assert forall|i: int| 0 <= i < b.uncommitted.len() implies c.uncommitted[i] == b.uncommitted[i] by {
        assert(c.uncommitted.take(b.uncommitted.len() as int)[i] == b.uncommitted[i]);
    }
    assert forall|i: int| 0 <= i < b.staged.len() implies c.staged[i] == b.staged[i] by {
        assert(c.staged.take(b.staged.len() as int)[i] == b.staged[i]);
    }
    assert forall|i: int| 0 <= i < b.pushable.len() implies c.pushable[i] == b.pushable[i] by {
        assert(c.pushable.take(b.pushable.len() as int)[i] == b.pushable[i]);
    }
    assert forall|i: int| 0 <= i < b.repos.len() implies c.repos[i] == b.repos[i] by {
        assert(c.repos.take(b.repos.len() as int)[i] == b.repos[i]);
    }
    assert forall|i: int| 0 <= i < a.uncommitted.len() implies b.uncommitted[i] == a.uncommitted[i] by {
        assert(b.uncommitted.take(a.uncommitted.len() as int)[i] == a.uncommitted[i]);
    }
    assert forall|i: int| 0 <= i < a.staged.len() implies b.staged[i] == a.staged[i] by {
        assert(b.staged.take(a.staged.len() as int)[i] == a.staged[i]);
    }
    assert forall|i: int| 0 <= i < a.pushable.len() implies b.pushable[i] == a.pushable[i] by {
        assert(b.pushable.take(a.pushable.len() as int)[i] == a.pushable[i]);
    }
    assert forall|i: int| 0 <= i < a.repos.len() implies b.repos[i] == a.repos[i] by {
        assert(b.repos.take(a.repos.len() as int)[i] == a.repos[i]);
    }
}

/// Noting branches adds pushable entries that name the repository's root.
pub proof fn lemma_noted_grows(
    ctx: RepoContext,
    start: Seq<PushableView>,
    branches: Seq<(Seq<char>, Seq<char>)>,
    answers: Seq<BranchAnswer>,
    n: int,
)
    ensures
        added_under(
            start,
            branches_noted(ctx, start, branches, answers, n).1,
            |e: PushableView| e.root_display == ctx.root_display && e.root_full == ctx.root_full,
        ),
    decreases n,
{
    if n > 0 {
        lemma_noted_grows(ctx, start, branches, answers, n - 1);
        let prev = branches_noted(ctx, start, branches, answers, n - 1).1;
        let next = branches_noted(ctx, start, branches, answers, n).1;
        assert forall|i: int| 0 <= i < prev.len() implies next[i] == prev[i] by {}
        assert forall|i: int| 0 <= i < start.len() implies prev[i] == start[i] by {
            assert(prev.take(start.len() as int)[i] == start[i]);
        }
    }
}

/// Noting changes adds at most one entry, which names the repository's root.
pub proof fn lemma_changes_noted_grow<G: GitRunner>(
    git: G,
    repo: Seq<char>,
    staged: bool,
    include_untracked: bool,
    ctx: RepoContext,
    before: Seq<ChangeView>,
    after: Seq<ChangeView>,
)
    requires
        changes_noted(git, repo, staged, include_untracked, ctx, before, after),
    ensures
        added_under(
            before,
            after,
            |e: ChangeView| e.root_display == ctx.root_display && e.root_full == ctx.root_full,
        ),
        after.len() <= before.len() + 1,
{
}

/// What one repository adds is growth under its root.
pub proof fn lemma_repo_added_grows<G: GitRunner, C: Clock>(
    git: G,
    clock: C,
    include_untracked: bool,
    before: ReportView,
    after: ReportView,
    repo: Seq<char>,
    name: Seq<char>,
    root_display: Seq<char>,
    root_full: Seq<char>,
)
    requires
        repo_added(
            git,
            clock,
            include_untracked,
            before,
            after,
            repo,
            name,
            root_display,
            root_full,
        ),
    ensures
        grown_under(before, after, root_display, root_full),
{
    let (branch, branches, answers) = choose|
        branch: Seq<char>,
        branches: Seq<(Seq<char>, Seq<char>)>,
        answers: Seq<BranchAnswer>,
    |
        #[trigger] repo_added_with(
            git,
            clock,
            include_untracked,
            before,
            after,
            repo,
            RepoContext { name, head_branch: branch, root_display, root_full },
            branches,
            answers,
        );
    let ctx = RepoContext { name, head_branch: branch, root_display, root_full };
    lemma_noted_grows(ctx, before.pushable, branches, answers, branches.len() as int);
    lemma_changes_noted_grow(
        git,
        repo,
        false,
        include_untracked,
        ctx,
        before.uncommitted,
        after.uncommitted,
    );
    lemma_changes_noted_grow(git, repo, true, true, ctx, before.staged, after.staged);
}

/// The full form of a search root: the expanded root where it is absolute
/// or the working directory is not known, and otherwise the root taken from
/// the working directory on.
pub open spec fn full_root_of(expanded: Seq<char>, absolute: bool, joined: Option<Seq<char>>) -> Seq<
    char,
> {
    if absolute {
        expanded
    } else {
        match joined {
            Some(j) => j,
            None => expanded,
        }
    }
}

/// Computes `full_root_of`.
pub fn full_root(expanded: String, absolute: bool, joined: Option<String>) -> (r: String)
    ensures
        r@ == full_root_of(expanded@, absolute, crate::types::opt_text(joined)),
{
    if absolute {
        expanded
    } else {
        match joined {
            Some(j) => j,
            None => expanded,
        }
    }
}

/// Whether `r` is the full form of the search root `expanded`, given
/// whether the root is absolute, what the file system names as the working
/// directory, and what the root is when taken from that directory on. An
/// absolute root is its own full form, and the working directory is not
/// asked for; any other root is taken from the working directory on where
/// that is known, and stays as it is where it is not.
pub open spec fn is_full_root<F: FsOps>(
    fs: F,
    expanded: Seq<char>,
    absolute: bool,
    cwd: Option<Seq<char>>,
    joined: Seq<char>,
    r: Seq<char>,
) -> bool {
    &&& !absolute ==> fs.may_be_in(cwd)
    &&& r == full_root_of(
        expanded,
        absolute,
        if cwd is Some {
            Some(joined)
        } else {
            None
        },
    )
}

/// The full form of the search root `expanded`. Whether the root is
/// absolute, and what it is when taken from the working directory on, is
/// asked of the standard library; the working directory is asked of the
/// file system, and only for a root that is not absolute.
pub fn normalize_root_path<F: FsOps>(expanded: String, fs: &F) -> (r: String)
    ensures
        exists|absolute: bool, cwd: Option<Seq<char>>, joined: Seq<char>| #[trigger]
            is_full_root(*fs, expanded@, absolute, cwd, joined, r@),
{
    let absolute = path_is_absolute(expanded.as_str());
    let ghost mut named: Option<Seq<char>> = None;
    let joined = if absolute {
        None
    } else {
        let cwd = fs.current_dir();
        proof {
            named = opt_text(cwd);
        }
        match cwd {
            Some(cwd) => Some(path_join(cwd.as_str(), expanded.as_str())),
            None => None,
        }
    };
    let ghost taken = match opt_text(joined) {
        Some(j) => j,
        None => Seq::empty(),
    };
    let ghost start = expanded@;
    let r = full_root(expanded, absolute, joined);
    assert(is_full_root(*fs, start, absolute, named, taken, r@));
    r
}

/// The search roots as the options give them: `~/src` where they give none.
pub open spec fn root_displays(roots: Seq<Seq<char>>) -> Seq<Seq<char>> {
    if roots.len() == 0 {
        seq!["~/src"@]
    } else {
        roots
    }
}

/// The display forms of a list of resolved roots.
pub open spec fn displays_of(rooted: Seq<(String, String)>) -> Seq<Seq<char>> {
    rooted.map_values(|r: (String, String)| r.0@)
}

/// Whether `full` is the full form that the file system gives for the
/// search root written as `display`: the root is expanded, and the expanded
/// root is made full.
pub open spec fn is_resolved_root<F: FsOps>(fs: F, display: Seq<char>, full: Seq<char>) -> bool {
    exists|expanded: Seq<char>, absolute: bool, cwd: Option<Seq<char>>, joined: Seq<char>|
        fs.may_expand(display, expanded) && #[trigger] is_full_root(
            fs,
            expanded,
            absolute,
            cwd,
            joined,
            full,
        )
}

/// One search root, as written and in full.
pub fn resolve_root<F: FsOps>(root: &str, fs: &F) -> (r: (String, String))
    ensures
        r.0@ == root@,
        is_resolved_root(*fs, root@, r.1@),
{
    let expanded = fs.expand_tilde(root);
    let ghost start = expanded@;
    let full = normalize_root_path(expanded, fs);
    proof {
        let (absolute, cwd, joined) = choose|
            absolute: bool,
            cwd: Option<Seq<char>>,
            joined: Seq<char>,
        | #[trigger]
            is_full_root(*fs, start, absolute, cwd, joined, full@);
        assert(fs.may_expand(root@, start) && is_full_root(
            *fs,
            start,
            absolute,
            cwd,
            joined,
            full@,
        ));
    }
    (root.to_owned(), full)
}

/// The search roots, each as written and in full.
pub fn resolve_roots<F: FsOps>(opts: &Options, fs: &F) -> (r: Vec<(String, String)>)
    ensures
        displays_of(r@) == root_displays(views(opts.roots@)),
        forall|i: int|
            0 <= i < r@.len() ==> is_resolved_root(*fs, (#[trigger] r@[i]).0@, r@[i].1@),
{
    let mut r: Vec<(String, String)> = Vec::new();
    if opts.roots.len() == 0 {
        let resolved = resolve_root("~/src", fs);
        r.push(resolved);
        assert(displays_of(r@) =~= seq!["~/src"@]);
        return r;
    }
    let ghost roots = views(opts.roots@);
    let mut i: usize = 0;
    assert(displays_of(r@) =~= roots.take(0));
    while i < opts.roots.len()
        invariant
            i <= opts.roots.len(),
            roots == views(opts.roots@),
            displays_of(r@) == roots.take(i as int),
            forall|k: int|
                0 <= k < r@.len() ==> is_resolved_root(*fs, (#[trigger] r@[k]).0@, r@[k].1@),
        decreases opts.roots.len() - i,
    {
        let ghost before = displays_of(r@);
        let ghost held = r@;
        let resolved = resolve_root(opts.roots[i].as_str(), fs);
        r.push(resolved);
        assert(displays_of(r@) =~= before.push(roots[i as int]));
        assert(roots.take(i + 1) =~= roots.take(i as int).push(roots[i as int]));
        assert forall|k: int| 0 <= k < r@.len() implies is_resolved_root(
            *fs,
            (#[trigger] r@[k]).0@,
            r@[k].1@,
        ) by {
            if k < held.len() {
                assert(r@[k] == held[k]);
            }
        }
        i += 1;
    }
    assert(roots.take(opts.roots.len() as int) =~= roots);
    r
}

/// Whether `steps` are the states that a report goes through while the
/// repositories `handles` are taken in order: each state is the one before
/// it with what the next repository adds.
pub open spec fn is_root_scan<G: GitRunner, C: Clock>(
    git: G,
    clock: C,
    include_untracked: bool,
    handles: Seq<RepoHandleView>,
    root_display: Seq<char>,
    root_full: Seq<char>,
    steps: Seq<ReportView>,
) -> bool {
    &&& steps.len() == handles.len() + 1
    &&& forall|i: int|
        0 <= i < handles.len() ==> repo_added(
            git,
            clock,
            include_untracked,
            #[trigger] steps[i],
            steps[i + 1],
            handles[i].path,
            handles[i].name,
            root_display,
            root_full,
        )
}

/// Whether `after` is `before` with one search root scanned: the
/// repositories under the root are discovered, down to `depth` levels, and
/// taken in the order of the discovery; each adds to the report what it has
/// to show, under the root as it is written and in full.
pub open spec fn root_scanned<F: FsOps, G: GitRunner, C: Clock>(
    fs: F,
    git: G,
    clock: C,
    depth: usize,
    include_untracked: bool,
    root_display: Seq<char>,
    root_full: Seq<char>,
    before: ReportView,
    after: ReportView,
) -> bool {
    exists|
        handles: Seq<RepoHandleView>,
        answers: Seq<RootAnswer>,
        names: Seq<Seq<char>>,
        steps: Seq<ReportView>,
    |
        #![trigger
            is_discovery(fs, seq![root_full], depth, handles, answers, names),
            is_root_scan(git, clock, include_untracked, handles, root_display, root_full, steps),
        ]
        is_discovery(fs, seq![root_full], depth, handles, answers, names) && is_root_scan(
            git,
            clock,
            include_untracked,
            handles,
            root_display,
            root_full,
            steps,
        ) && steps[0] == before && steps.last() == after
}

/// A scan of a root leaves the report grown under that root.
pub proof fn lemma_root_scan_grows<G: GitRunner, C: Clock>(
    git: G,
    clock: C,
    include_untracked: bool,
    handles: Seq<RepoHandleView>,
    root_display: Seq<char>,
    root_full: Seq<char>,
    steps: Seq<ReportView>,
    n: int,
)
    requires
        is_root_scan(git, clock, include_untracked, handles, root_display, root_full, steps),
        0 <= n <= handles.len(),
    ensures
        grown_under(steps[0], steps[n], root_display, root_full),
    decreases n,
{
    if n > 0 {
        lemma_root_scan_grows(
            git,
            clock,
            include_untracked,
            handles,
            root_display,
            root_full,
            steps,
            n - 1,
        );
        assert(repo_added(
            git,
            clock,
            include_untracked,
            steps[n - 1],
            steps[n - 1 + 1],
            handles[n - 1].path,
            handles[n - 1].name,
            root_display,
            root_full,
        ));
        lemma_repo_added_grows(
            git,
            clock,
            include_untracked,
            steps[n - 1],
            steps[n],
            handles[n - 1].path,
            handles[n - 1].name,
            root_display,
            root_full,
        );
        lemma_grown_chain(steps[0], steps[n - 1], steps[n], root_display, root_full);
    } else {
        lemma_grown_chain(steps[0], steps[0], steps[0], root_display, root_full);
    }
}

/// Adds to the report what the repositories under one search root have to
/// show: the root is searched down to the depth that the options give, and
/// every repository found is taken, in the order of the discovery.
pub fn scan_root<F: FsOps, G: GitRunner, C: Clock>(
    root_display: &str,
    root_full: &str,
    opts: &Options,
    fs: &F,
    git: &G,
    clock: &C,
    data: &mut ReportData,
)
    ensures
        root_scanned(
            *fs,
            *git,
            *clock,
            opts.depth,
            !opts.no_untracked,
            root_display@,
            root_full@,
            old(data)@,
            final(data)@,
        ),
        grown_under(old(data)@, final(data)@, root_display@, root_full@),
{
    let mut roots: Vec<String> = Vec::new();
    roots.push(root_full.to_owned());
    assert(views(roots@) =~= seq![root_full@]);
    let repos = discover(fs, &roots, opts.depth);
    let ghost handles = views(repos@);
    let ghost (answers, names) = choose|answers: Seq<RootAnswer>, names: Seq<Seq<char>>| #[trigger]
        is_discovery(*fs, views(roots@), opts.depth, handles, answers, names);
    let ghost mut steps: Seq<ReportView> = seq![data@];
    let mut i: usize = 0;
    while i < repos.len()
        invariant
            i <= repos.len(),
            handles == views(repos@),
            steps.len() == i + 1,
            steps[0] == old(data)@,
            steps.last() == data@,
            forall|k: int|
                0 <= k < i ==> repo_added(
                    *git,
                    *clock,
                    !opts.no_untracked,
                    #[trigger] steps[k],
                    steps[k + 1],
                    handles[k].path,
                    handles[k].name,
                    root_display@,
                    root_full@,
                ),
        decreases repos.len() - i,
    {
        let ghost before = steps;
        process_repo(
            repos[i].path.as_str(),
            repos[i].name.as_str(),
            RootContext { display: root_display, full: root_full },
            opts,
            git,
            clock,
            data,
        );
        proof {
            steps = before.push(data@);
            assert forall|k: int| 0 <= k < i + 1 implies repo_added(
                *git,
                *clock,
                !opts.no_untracked,
                #[trigger] steps[k],
                steps[k + 1],
                handles[k].path,
                handles[k].name,
                root_display@,
                root_full@,
            ) by {
                if k < i {
                    assert(steps[k] == before[k]);
                    assert(steps[k + 1] == before[k + 1]);
                }
            }
        }
        i += 1;
    }
    proof {
        assert(is_root_scan(
            *git,
            *clock,
            !opts.no_untracked,
            handles,
            root_display@,
            root_full@,
            steps,
        ));
        lemma_root_scan_grows(
            *git,
            *clock,
            !opts.no_untracked,
            handles,
            root_display@,
            root_full@,
            steps,
            handles.len() as int,
        );
    }
}

/// The report before anything is scanned.
pub open spec fn empty_report(multi_root: bool) -> ReportView {
    ReportView {
        uncommitted: Seq::empty(),
        staged: Seq::empty(),
        pushable: Seq::empty(),
        git_rewrite: None,
        multi_root,
        repos: Seq::empty(),
        untracked_repos: Seq::empty(),
        untracked_enabled: false,
    }
}

/// Whether `steps` are the states that a report goes through while the
/// roots are scanned in order: it starts empty, and grows under one root
/// after the other. Every root is given as it is written and in full.
pub open spec fn is_scan_trace<F: FsOps, G: GitRunner, C: Clock>(
    fs: F,
    git: G,
    clock: C,
    depth: usize,
    include_untracked: bool,
    roots: Seq<(Seq<char>, Seq<char>)>,
    multi_root: bool,
    steps: Seq<ReportView>,
) -> bool {
    &&& steps.len() == roots.len() + 1
    &&& steps[0] == empty_report(multi_root)
    &&& forall|i: int|
        0 <= i < roots.len() ==> root_scanned(
            fs,
            git,
            clock,
            depth,
            include_untracked,
            roots[i].0,
            roots[i].1,
            #[trigger] steps[i],
            steps[i + 1],
        ) && grown_under(steps[i], steps[i + 1], roots[i].0, roots[i].1)
}

/// The views of a list of resolved roots.
pub open spec fn rooted_view(rooted: Seq<(String, String)>) -> Seq<(Seq<char>, Seq<char>)> {
    rooted.map_values(|r: (String, String)| (r.0@, r.1@))
}

/// Every state of a scan holds what a scan alone can find.
pub proof fn lemma_scan_trace<F: FsOps, G: GitRunner, C: Clock>(
    fs: F,
    git: G,
    clock: C,
    depth: usize,
    include_untracked: bool,
    roots: Seq<(Seq<char>, Seq<char>)>,
    multi_root: bool,
    steps: Seq<ReportView>,
    n: int,
)
    requires
        is_scan_trace(fs, git, clock, depth, include_untracked, roots, multi_root, steps),
        0 <= n <= roots.len(),
    ensures
        is_scan_report(steps[n]),
        steps[n].multi_root == multi_root,
    decreases n,
{
    if n > 0 {
        lemma_scan_trace(
            fs,
            git,
            clock,
            depth,
            include_untracked,
            roots,
            multi_root,
            steps,
            n - 1,
        );
        assert(grown_under(steps[n - 1], steps[n - 1 + 1], roots[n - 1].0, roots[n - 1].1));
    }
}

/// Whether a report holds what a scan alone can find: no audit findings, no
/// reconciliation, and for no repository more than one entry of a kind.
pub open spec fn is_scan_report(r: ReportView) -> bool {
    &&& r.git_rewrite is None
    &&& !r.untracked_enabled
    &&& r.untracked_repos.len() == 0
    &&& r.uncommitted.len() <= r.repos.len()
    &&& r.staged.len() <= r.repos.len()
}

/// Whether `data` is the report that a scan as `opts` say gives when it
/// resolves the search roots as `roots` and the report goes through the
/// states `steps`: the roots are those of the options, or `~/src` where
/// there are none, each with the full form that the file system gives for
/// it; the report starts empty and has one root after the other scanned
/// into it; `data` is its last state.
pub open spec fn is_collection<F: FsOps, G: GitRunner, C: Clock>(
    fs: F,
    git: G,
    clock: C,
    opts: Options,
    roots: Seq<(Seq<char>, Seq<char>)>,
    steps: Seq<ReportView>,
    data: ReportView,
) -> bool {
    &&& roots.map_values(|r: (Seq<char>, Seq<char>)| r.0) == root_displays(views(opts.roots@))
    &&& forall|k: int|
        0 <= k < roots.len() ==> is_resolved_root(fs, (#[trigger] roots[k]).0, roots[k].1)
    &&& is_scan_trace(
        fs,
        git,
        clock,
        opts.depth,
        !opts.no_untracked,
        roots,
        opts.roots@.len() > 1,
        steps,
    )
    &&& steps.last() == data
}

/// Scans every search root and reports on every repository found.
///
/// The roots are those of the options, or `~/src` where there are none. They
/// are scanned in order, and each adds its findings behind those of the
/// roots before it, marked with the root as written and in full. More than
/// one root makes the report a multi-root one.
pub fn collect_report_data<F: FsOps, G: GitRunner, C: Clock>(
    opts: &Options,
    fs: &F,
    git: &G,
    clock: &C,
) -> (data: ReportData)
    ensures
        exists|roots: Seq<(Seq<char>, Seq<char>)>, steps: Seq<ReportView>| #[trigger]
            is_collection(*fs, *git, *clock, *opts, roots, steps, data@),
        data@.multi_root == (opts.roots@.len() > 1),
        is_scan_report(data@),
{
    let rooted = resolve_roots(opts, fs);
    let ghost roots = rooted_view(rooted@);
    let ghost multi_root = opts.roots@.len() > 1;
    assert(rooted@.len() == displays_of(rooted@).len());
    assert(roots.map_values(|r: (Seq<char>, Seq<char>)| r.0) =~= displays_of(rooted@));
    assert forall|k: int| 0 <= k < roots.len() implies is_resolved_root(
        *fs,
        (#[trigger] roots[k]).0,
        roots[k].1,
    ) by {
        assert(roots[k] == (rooted@[k].0@, rooted@[k].1@));
    }
    let mut data = ReportData::default();
    data.multi_root = rooted.len() > 1;
    assert(data@ == empty_report(multi_root));
    let ghost mut steps: Seq<ReportView> = seq![data@];
    let mut i: usize = 0;
    while i < rooted.len()
        invariant
            i <= rooted.len(),
            roots == rooted_view(rooted@),
            steps.len() == i + 1,
            steps[0] == empty_report(multi_root),
            steps.last() == data@,
            forall|k: int|
                0 <= k < i ==> root_scanned(
                    *fs,
                    *git,
                    *clock,
                    opts.depth,
                    !opts.no_untracked,
                    roots[k].0,
                    roots[k].1,
                    #[trigger] steps[k],
                    steps[k + 1],
                ) && grown_under(steps[k], steps[k + 1], roots[k].0, roots[k].1),
        decreases rooted.len() - i,
    {
        let ghost before = steps;
        scan_root(rooted[i].0.as_str(), rooted[i].1.as_str(), opts, fs, git, clock, &mut data);
        proof {
            steps = before.push(data@);
            assert forall|k: int| 0 <= k < i + 1 implies root_scanned(
                *fs,
                *git,
                *clock,
                opts.depth,
                !opts.no_untracked,
                roots[k].0,
                roots[k].1,
                #[trigger] steps[k],
                steps[k + 1],
            ) && grown_under(steps[k], steps[k + 1], roots[k].0, roots[k].1) by {
                if k < i {
                    assert(steps[k] == before[k]);
                    assert(steps[k + 1] == before[k + 1]);
                }
            }
        }
        i += 1;
    }
    proof {
        assert(is_scan_trace(
            *fs,
            *git,
            *clock,
            opts.depth,
            !opts.no_untracked,
            roots,
            multi_root,
            steps,
        ));
        lemma_scan_trace(
            *fs,
            *git,
            *clock,
            opts.depth,
            !opts.no_untracked,
            roots,
            multi_root,
            steps,
            roots.len() as int,
        );
        assert(is_collection(*fs, *git, *clock, *opts, roots, steps, data@));
    }
    data
}

} // verus!
