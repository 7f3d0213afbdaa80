//! The report's data model. Every record has a view that replaces its strings
//! by their characters; contracts speak of the views.

use vstd::prelude::*;

verus! {

/// The views of the items of a sequence, one for one.
pub open spec fn views<T: View>(s: Seq<T>) -> Seq<T::V> {
    s.map_values(|x: T| x@)
}

/// The view of an optional string.
pub open spec fn opt_text(s: Option<String>) -> Option<Seq<char>> {
    match s {
        Some(t) => Some(t@),
        None => None,
    }
}

/// A repository with changes in its working tree.
#[derive(Debug, Clone)]
pub struct UncommittedEntry {
    pub repo: String,
    pub branch: String,
    pub lines: u64,
    pub files: u64,
    pub untracked: u64,
    /// The search root as the caller wrote it.
    pub root_display: String,
    /// The search root as an absolute path.
    pub root_full: String,
}

/// A repository with changes in its index.
#[derive(Debug, Clone)]
pub struct StagedEntry {
    pub repo: String,
    pub branch: String,
    pub lines: u64,
    pub files: u64,
    pub untracked: u64,
    pub root_display: String,
    pub root_full: String,
}

/// The view shared by `UncommittedEntry` and `StagedEntry`.
pub struct ChangeView {
    pub repo: Seq<char>,
    pub branch: Seq<char>,
    pub lines: u64,
    pub files: u64,
    pub untracked: u64,
    pub root_display: Seq<char>,
    pub root_full: Seq<char>,
}

impl View for UncommittedEntry {
    type V = ChangeView;

    open spec fn view(&self) -> ChangeView {
        ChangeView {
            repo: self.repo@,
            branch: self.branch@,
            lines: self.lines,
            files: self.files,
            untracked: self.untracked,
            root_display: self.root_display@,
            root_full: self.root_full@,
        }
    }
}

impl View for StagedEntry {
    type V = ChangeView;

    open spec fn view(&self) -> ChangeView {
        ChangeView {
            repo: self.repo@,
            branch: self.branch@,
            lines: self.lines,
            files: self.files,
            untracked: self.untracked,
            root_display: self.root_display@,
            root_full: self.root_full@,
        }
    }
}

/// A local branch that is ahead of its upstream.
#[derive(Debug, Clone)]
pub struct PushableEntry {
    pub repo: String,
    pub branch: String,
    pub revs: u64,
    pub earliest_secs: Option<u64>,
    pub latest_secs: Option<u64>,
    pub root_display: String,
    pub root_full: String,
}

pub struct PushableView {
    pub repo: Seq<char>,
    pub branch: Seq<char>,
    pub revs: u64,
    pub earliest_secs: Option<u64>,
    pub latest_secs: Option<u64>,
    pub root_display: Seq<char>,
    pub root_full: Seq<char>,
}

impl View for PushableEntry {
    type V = PushableView;

    open spec fn view(&self) -> PushableView {
        PushableView {
            repo: self.repo@,
            branch: self.branch@,
            revs: self.revs,
            earliest_secs: self.earliest_secs,
            latest_secs: self.latest_secs,
            root_display: self.root_display@,
            root_full: self.root_full@,
        }
    }
}

/// The outcome of auditing one pair of repositories.
#[derive(Debug, Clone)]
pub struct GitRewriteEntry {
    pub source_repo: String,
    pub source_branch: String,
    pub source_path: String,
    pub target_repo: String,
    pub target_branch: String,
    pub target_path: String,
    pub commits: u64,
    pub earliest_secs: Option<u64>,
    pub latest_secs: Option<u64>,
}

pub struct GitRewriteView {
    pub source_repo: Seq<char>,
    pub source_branch: Seq<char>,
    pub source_path: Seq<char>,
    pub target_repo: Seq<char>,
    pub target_branch: Seq<char>,
    pub target_path: Seq<char>,
    pub commits: u64,
    pub earliest_secs: Option<u64>,
    pub latest_secs: Option<u64>,
}

impl View for GitRewriteEntry {
    type V = GitRewriteView;

    open spec fn view(&self) -> GitRewriteView {
        GitRewriteView {
            source_repo: self.source_repo@,
            source_branch: self.source_branch@,
            source_path: self.source_path@,
            target_repo: self.target_repo@,
            target_branch: self.target_branch@,
            target_path: self.target_path@,
            commits: self.commits,
            earliest_secs: self.earliest_secs,
            latest_secs: self.latest_secs,
        }
    }
}

/// One discovered repository: where it is, what is checked out, and how far
/// the checked-out branch is ahead of its upstream.
#[derive(Debug, Clone)]
pub struct RepoSummary {
    pub repo: String,
    pub branch: String,
    pub path: String,
    pub root_display: String,
    pub root_full: String,
    pub head_revs: Option<u64>,
    pub head_earliest_secs: Option<u64>,
    pub head_latest_secs: Option<u64>,
}

pub struct RepoSummaryView {
    pub repo: Seq<char>,
    pub branch: Seq<char>,
    pub path: Seq<char>,
    pub root_display: Seq<char>,
    pub root_full: Seq<char>,
    pub head_revs: Option<u64>,
    pub head_earliest_secs: Option<u64>,
    pub head_latest_secs: Option<u64>,
}

impl View for RepoSummary {
    type V = RepoSummaryView;

    open spec fn view(&self) -> RepoSummaryView {
        RepoSummaryView {
            repo: self.repo@,
            branch: self.branch@,
            path: self.path@,
            root_display: self.root_display@,
            root_full: self.root_full@,
            head_revs: self.head_revs,
            head_earliest_secs: self.head_earliest_secs,
            head_latest_secs: self.head_latest_secs,
        }
    }
}

/// Why a repository stands outside the audited pairs.
#[derive(Debug, Clone, Copy, PartialEq, Eq, Structural)]
pub enum UntrackedReason {
    /// Configured, and marked to be ignored.
    Ignored,
    /// Found on disk, named by no configured endpoint.
    MissingConfig,
    /// Configured as an endpoint, not found on disk.
    MissingRepo,
}

/// A repository that stands outside the audited pairs.
#[derive(Debug, Clone)]
pub struct UntrackedRepoEntry {
    pub repo: String,
    pub branch: String,
    pub root_display: String,
    pub root_full: String,
    pub revs: Option<u64>,
    pub earliest_secs: Option<u64>,
    pub latest_secs: Option<u64>,
    pub reason: UntrackedReason,
}

pub struct UntrackedView {
    pub repo: Seq<char>,
    pub branch: Seq<char>,
    pub root_display: Seq<char>,
    pub root_full: Seq<char>,
    pub revs: Option<u64>,
    pub earliest_secs: Option<u64>,
    pub latest_secs: Option<u64>,
    pub reason: UntrackedReason,
}

impl View for UntrackedRepoEntry {
    type V = UntrackedView;

    open spec fn view(&self) -> UntrackedView {
        UntrackedView {
            repo: self.repo@,
            branch: self.branch@,
            root_display: self.root_display@,
            root_full: self.root_full@,
            revs: self.revs,
            earliest_secs: self.earliest_secs,
            latest_secs: self.latest_secs,
            reason: self.reason,
        }
    }
}

/// Everything one run found.
#[derive(Debug, Clone)]
pub struct ReportData {
    pub uncommitted: Vec<UncommittedEntry>,
    pub staged: Vec<StagedEntry>,
    pub pushable: Vec<PushableEntry>,
    pub git_rewrite: Option<Vec<GitRewriteEntry>>,
    /// Whether more than one search root was scanned.
    pub multi_root: bool,
    pub repos: Vec<RepoSummary>,
    pub untracked_repos: Vec<UntrackedRepoEntry>,
    pub untracked_enabled: bool,
}

pub struct ReportView {
    pub uncommitted: Seq<ChangeView>,
    pub staged: Seq<ChangeView>,
    pub pushable: Seq<PushableView>,
    pub git_rewrite: Option<Seq<GitRewriteView>>,
    pub multi_root: bool,
    pub repos: Seq<RepoSummaryView>,
    pub untracked_repos: Seq<UntrackedView>,
    pub untracked_enabled: bool,
}

impl View for ReportData {
    type V = ReportView;

    open spec fn view(&self) -> ReportView {
        ReportView {
            uncommitted: views(self.uncommitted@),
            staged: views(self.staged@),
            pushable: views(self.pushable@),
            git_rewrite: match self.git_rewrite {
                Some(entries) => Some(views(entries@)),
                None => None,
            },
            multi_root: self.multi_root,
            repos: views(self.repos@),
            untracked_repos: views(self.untracked_repos@),
            untracked_enabled: self.untracked_enabled,
        }
    }
}

impl Default for ReportData {
    fn default() -> (r: ReportData)
        ensures
            r@ == (ReportView {
                uncommitted: Seq::empty(),
                staged: Seq::empty(),
                pushable: Seq::empty(),
                git_rewrite: None,
                multi_root: false,
                repos: Seq::empty(),
                untracked_repos: Seq::empty(),
                untracked_enabled: false,
            }),
    {
        let r = ReportData {
            uncommitted: Vec::new(),
            staged: Vec::new(),
            pushable: Vec::new(),
            git_rewrite: None,
            multi_root: false,
            repos: Vec::new(),
            untracked_repos: Vec::new(),
            untracked_enabled: false,
        };
        assert(r@.uncommitted =~= Seq::empty());
        assert(r@.staged =~= Seq::empty());
        assert(r@.pushable =~= Seq::empty());
        assert(r@.repos =~= Seq::empty());
        assert(r@.untracked_repos =~= Seq::empty());
        r
    }
}

/// What to scan and how.
#[derive(Debug, Clone)]
pub struct Options {
    /// The search roots; with none given, `~/src` is scanned.
    pub roots: Vec<String>,
    /// How many levels below a root to search.
    pub depth: usize,
    /// Leave untracked files out of the uncommitted state.
    pub no_untracked: bool,
    pub debug: bool,
    /// Fetch every referenced remote before counting commits.
    pub refresh_remotes: bool,
    pub git_rewrite_toml: Option<String>,
    pub git_rewrite_path: Option<String>,
}

impl Default for Options {
    fn default() -> (r: Options)
        ensures
            r.roots@.len() == 0,
            r.depth == 0,
            !r.no_untracked,
            !r.debug,
            !r.refresh_remotes,
            r.git_rewrite_toml is None,
            r.git_rewrite_path is None,
    {
        Options {
            roots: Vec::new(),
            depth: 0,
            no_untracked: false,
            debug: false,
            refresh_remotes: false,
            git_rewrite_toml: None,
            git_rewrite_path: None,
        }
    }
}

impl UncommittedEntry {
    /// An entry of its own with the same content.
    pub fn duplicate(&self) -> (r: UncommittedEntry)
        ensures
            r@ == self@,
    {
        UncommittedEntry {
            repo: self.repo.clone(),
            branch: self.branch.clone(),
            lines: self.lines,
            files: self.files,
            untracked: self.untracked,
            root_display: self.root_display.clone(),
            root_full: self.root_full.clone(),
        }
    }
}

impl StagedEntry {
    /// An entry of its own with the same content.
    pub fn duplicate(&self) -> (r: StagedEntry)
        ensures
            r@ == self@,
    {
        StagedEntry {
            repo: self.repo.clone(),
            branch: self.branch.clone(),
            lines: self.lines,
            files: self.files,
            untracked: self.untracked,
            root_display: self.root_display.clone(),
            root_full: self.root_full.clone(),
        }
    }
}

impl PushableEntry {
    /// An entry of its own with the same content.
    pub fn duplicate(&self) -> (r: PushableEntry)
        ensures
            r@ == self@,
    {
        PushableEntry {
            repo: self.repo.clone(),
            branch: self.branch.clone(),
            revs: self.revs,
            earliest_secs: self.earliest_secs,
            latest_secs: self.latest_secs,
            root_display: self.root_display.clone(),
            root_full: self.root_full.clone(),
        }
    }
}

impl GitRewriteEntry {
    /// An entry of its own with the same content.
    pub fn duplicate(&self) -> (r: GitRewriteEntry)
        ensures
            r@ == self@,
    {
        GitRewriteEntry {
            source_repo: self.source_repo.clone(),
            source_branch: self.source_branch.clone(),
            source_path: self.source_path.clone(),
            target_repo: self.target_repo.clone(),
            target_branch: self.target_branch.clone(),
            target_path: self.target_path.clone(),
            commits: self.commits,
            earliest_secs: self.earliest_secs,
            latest_secs: self.latest_secs,
        }
    }
}

impl RepoSummary {
    /// A summary of its own with the same content.
    pub fn duplicate(&self) -> (r: RepoSummary)
        ensures
            r@ == self@,
    {
        RepoSummary {
            repo: self.repo.clone(),
            branch: self.branch.clone(),
            path: self.path.clone(),
            root_display: self.root_display.clone(),
            root_full: self.root_full.clone(),
            head_revs: self.head_revs,
            head_earliest_secs: self.head_earliest_secs,
            head_latest_secs: self.head_latest_secs,
        }
    }
}

impl UntrackedRepoEntry {
    /// An entry of its own with the same content.
    pub fn duplicate(&self) -> (r: UntrackedRepoEntry)
        ensures
            r@ == self@,
    {
        UntrackedRepoEntry {
            repo: self.repo.clone(),
            branch: self.branch.clone(),
            root_display: self.root_display.clone(),
            root_full: self.root_full.clone(),
            revs: self.revs,
            earliest_secs: self.earliest_secs,
            latest_secs: self.latest_secs,
            reason: self.reason,
        }
    }
}

/// The items of `s` that meet `keep`, in order.
pub open spec fn kept<A>(s: Seq<A>, keep: spec_fn(A) -> bool) -> Seq<A>
    decreases s.len(),
{
    if s.len() == 0 {
        Seq::empty()
    } else if keep(s.last()) {
        kept(s.drop_last(), keep).push(s.last())
    } else {
        kept(s.drop_last(), keep)
    }
}

/// No more items are kept than there are.
pub proof fn lemma_kept_len<A>(s: Seq<A>, keep: spec_fn(A) -> bool)
    ensures
        kept(s, keep).len() <= s.len(),
    decreases s.len(),
{
    if s.len() > 0 {
        lemma_kept_len(s.drop_last(), keep);
    }
}

} // verus!
