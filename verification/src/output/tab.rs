//! The report as tables, one for each kind of finding.

use vstd::prelude::*;
use crate::text::{join_texts, joined};
use crate::types::{
    kept, views, GitRewriteEntry, GitRewriteView, PushableEntry, PushableView, ReportData,
    ReportView, UntrackedRepoEntry, UntrackedView,
};

pub mod git_rewrite;
pub mod other;
pub mod pushable;
pub mod staged;
pub mod style;
pub mod uncommitted;

verus! {

/// The looks that a table can have.
#[derive(Copy, Clone, Debug, Eq, PartialEq, Structural)]
pub enum TabStyle {
    Rounded,
    Modern,
    ModernRounded,
    Ascii,
    AsciiRounded,
    Psql,
    Markdown,
    Extended,
    Sharp,
    Dots,
    ReStructuredText,
    Blank,
    Empty,
}

/// Whether a pushable branch has anything to push.
pub open spec fn is_ahead(e: PushableView) -> bool {
    e.revs > 0
}

/// Whether a repository outside the audit may have anything to push: it
/// has where nothing was counted.
pub open spec fn may_be_ahead(e: UntrackedView) -> bool {
    match e.revs {
        Some(revs) => revs > 0,
        None => true,
    }
}

/// Whether a finding lists any commit.
pub open spec fn lists_commits(e: GitRewriteView) -> bool {
    e.commits > 0
}

/// A report without what calls for no action: the branches that are not
/// ahead, the repositories outside the audit that are known not to be
/// ahead, and the findings without commits.
pub open spec fn without_idle(data: ReportView) -> ReportView {
    ReportView {
        pushable: kept(data.pushable, |e: PushableView| is_ahead(e)),
        untracked_repos: kept(data.untracked_repos, |e: UntrackedView| may_be_ahead(e)),
        git_rewrite: match data.git_rewrite {
            Some(entries) => Some(kept(entries, |e: GitRewriteView| lists_commits(e))),
            None => None,
        },
        ..data
    }
}

/// Computes `without_idle`.
pub fn apply_omit_filter(data: &ReportData) -> (r: ReportData)
    ensures
        r@ == without_idle(data@),
{
    let ghost d = data@;
    let mut uncommitted: Vec<crate::types::UncommittedEntry> = Vec::new();
    let mut i: usize = 0;
    assert(views(uncommitted@) =~= d.uncommitted.take(0));
    while i < data.uncommitted.len()
        invariant
            i <= data.uncommitted.len(),
            d == data@,
            views(uncommitted@) == d.uncommitted.take(i as int),
        decreases data.uncommitted.len() - i,
    {
        let ghost before = views(uncommitted@);
        uncommitted.push(data.uncommitted[i].duplicate());
        assert(views(uncommitted@) =~= before.push(d.uncommitted[i as int]));
        assert(d.uncommitted.take(i + 1) =~= d.uncommitted.take(i as int).push(d.uncommitted[i as int]));
        i += 1;
    }
    assert(d.uncommitted.take(data.uncommitted.len() as int) =~= d.uncommitted);

    let mut staged: Vec<crate::types::StagedEntry> = Vec::new();
    let mut i: usize = 0;
    assert(views(staged@) =~= d.staged.take(0));
    while i < data.staged.len()
        invariant
            i <= data.staged.len(),
            d == data@,
            views(staged@) == d.staged.take(i as int),
        decreases data.staged.len() - i,
    {
        let ghost before = views(staged@);
        staged.push(data.staged[i].duplicate());
        assert(views(staged@) =~= before.push(d.staged[i as int]));
        assert(d.staged.take(i + 1) =~= d.staged.take(i as int).push(d.staged[i as int]));
        i += 1;
    }
    assert(d.staged.take(data.staged.len() as int) =~= d.staged);

    let mut repos: Vec<crate::types::RepoSummary> = Vec::new();
    let mut i: usize = 0;
    assert(views(repos@) =~= d.repos.take(0));
    while i < data.repos.len()
        invariant
            i <= data.repos.len(),
            d == data@,
            views(repos@) == d.repos.take(i as int),
        decreases data.repos.len() - i,
    {
        let ghost before = views(repos@);
        repos.push(data.repos[i].duplicate());
        assert(views(repos@) =~= before.push(d.repos[i as int]));
        assert(d.repos.take(i + 1) =~= d.repos.take(i as int).push(d.repos[i as int]));
        i += 1;
    }
    assert(d.repos.take(data.repos.len() as int) =~= d.repos);

    let mut pushable: Vec<PushableEntry> = Vec::new();
    let mut i: usize = 0;
    assert(d.pushable.take(0) =~= Seq::<PushableView>::empty());
    assert(views(pushable@) =~= Seq::<PushableView>::empty());
    while i < data.pushable.len()
        invariant
            i <= data.pushable.len(),
            d == data@,
            views(pushable@) == kept(d.pushable.take(i as int), |e: PushableView| is_ahead(e)),
        decreases data.pushable.len() - i,
    {
        let ghost before = views(pushable@);
        proof {
            assert(d.pushable.take(i + 1).drop_last() =~= d.pushable.take(i as int));
            assert(d.pushable.take(i + 1).last() == d.pushable[i as int]);
        }
        if data.pushable[i].revs > 0 {
            pushable.push(data.pushable[i].duplicate());
            assert(views(pushable@) =~= before.push(d.pushable[i as int]));
        }
        i += 1;
    }
    assert(d.pushable.take(data.pushable.len() as int) =~= d.pushable);

    let mut untracked_repos: Vec<UntrackedRepoEntry> = Vec::new();
    let mut i: usize = 0;
    assert(d.untracked_repos.take(0) =~= Seq::<UntrackedView>::empty());
    assert(views(untracked_repos@) =~= Seq::<UntrackedView>::empty());
    while i < data.untracked_repos.len()
        invariant
            i <= data.untracked_repos.len(),
            d == data@,
            views(untracked_repos@) == kept(
                d.untracked_repos.take(i as int),
                |e: UntrackedView| may_be_ahead(e),
            ),
        decreases data.untracked_repos.len() - i,
    {
        let ghost before = views(untracked_repos@);
        proof {
            assert(d.untracked_repos.take(i + 1).drop_last() =~= d.untracked_repos.take(i as int));
            assert(d.untracked_repos.take(i + 1).last() == d.untracked_repos[i as int]);
        }
        let keep = match data.untracked_repos[i].revs {
            Some(revs) => revs > 0,
            None => true,
        };
        if keep {
            untracked_repos.push(data.untracked_repos[i].duplicate());
            assert(views(untracked_repos@) =~= before.push(d.untracked_repos[i as int]));
        }
        i += 1;
    }
    assert(d.untracked_repos.take(data.untracked_repos.len() as int) =~= d.untracked_repos);

    let git_rewrite = match &data.git_rewrite {
        Some(entries) => {
            let ghost all = views(entries@);
            let mut found: Vec<GitRewriteEntry> = Vec::new();
            let mut i: usize = 0;
            assert(all.take(0) =~= Seq::<GitRewriteView>::empty());
            assert(views(found@) =~= Seq::<GitRewriteView>::empty());
            while i < entries.len()
                invariant
                    i <= entries.len(),
                    all == views(entries@),
                    views(found@) == kept(all.take(i as int), |e: GitRewriteView| lists_commits(e)),
                decreases entries.len() - i,
            {
                let ghost before = views(found@);
                proof {
                    assert(all.take(i + 1).drop_last() =~= all.take(i as int));
                    assert(all.take(i + 1).last() == all[i as int]);
                }
                if entries[i].commits > 0 {
                    found.push(entries[i].duplicate());
                    assert(views(found@) =~= before.push(all[i as int]));
                }
                i += 1;
            }
            assert(all.take(entries.len() as int) =~= all);
            Some(found)
        },
        None => None,
    };
    ReportData {
        uncommitted,
        staged,
        pushable,
        git_rewrite,
        multi_root: data.multi_root,
        repos,
        untracked_repos,
        untracked_enabled: data.untracked_enabled,
    }
}

/// The number of entries that `without_idle` leaves out.
pub open spec fn idle_count(data: ReportView) -> nat {
    let shown = without_idle(data);
    ((data.pushable.len() - shown.pushable.len()) + (data.untracked_repos.len()
        - shown.untracked_repos.len()) + match data.git_rewrite {
        Some(entries) => entries.len() - shown.git_rewrite->0.len(),
        None => 0,
    }) as nat
}

/// Counts the entries that call for no action, up to the largest number
/// that can be counted.
pub fn omitted_count(data: &ReportData) -> (n: usize)
    ensures
        n == if idle_count(data@) > usize::MAX {
            usize::MAX as nat
        } else {
            idle_count(data@)
        },
{
    let shown = apply_omit_filter(data);
    proof {
        crate::types::lemma_kept_len(data@.pushable, |e: PushableView| is_ahead(e));
        crate::types::lemma_kept_len(data@.untracked_repos, |e: UntrackedView| may_be_ahead(e));
        if let Some(entries) = data@.git_rewrite {
            crate::types::lemma_kept_len(entries, |e: GitRewriteView| lists_commits(e));
        }
        assert(shown.pushable@.len() == shown@.pushable.len());
        assert(data.pushable@.len() == data@.pushable.len());
        assert(shown.untracked_repos@.len() == shown@.untracked_repos.len());
        assert(data.untracked_repos@.len() == data@.untracked_repos.len());
    }
    let pushable = data.pushable.len() - shown.pushable.len();
    let untracked = data.untracked_repos.len() - shown.untracked_repos.len();
    let findings = match (&data.git_rewrite, &shown.git_rewrite) {
        (Some(all), Some(left)) => {
            assert(all@.len() == data@.git_rewrite->0.len());
            assert(left@.len() == shown@.git_rewrite->0.len());
            all.len() - left.len()
        },
        _ => 0,
    };
    pushable.saturating_add(untracked).saturating_add(findings)
}

/// The number of tables that a report is shown in: the three of every scan,
/// one for the audit where one was made, and one for the repositories
/// outside the audit where they were looked for and idle entries are shown.
pub open spec fn table_count(data: ReportView, omit_non_actionable: bool) -> nat {
    3 + if data.git_rewrite is Some {
        1nat
    } else {
        0nat
    } + if data.untracked_enabled && !omit_non_actionable {
        1nat
    } else {
        0nat
    }
}

/// The report as tables, one below the other: uncommitted changes, staged
/// changes, pushable branches, then the audit and the repositories outside
/// it where the report holds them. With `omit_non_actionable`, what calls for
/// no action is left out, and with it the table of repositories outside the
/// audit. Roots are shown in a multi-root report. `humanize` puts ages in
/// words.
pub fn format_tab<H: Fn(u64) -> String>(
    data: &ReportData,
    style: TabStyle,
    omit_non_actionable: bool,
    humanize: &H,
) -> (r: String)
    requires
        forall|secs: u64| call_requires(*humanize, (secs,)),
    ensures
        exists|tables: Seq<Seq<char>>|
            r@ == joined(tables, "\n"@) && tables.len() == table_count(data@, omit_non_actionable),
{
    let filtered = if omit_non_actionable {
        Some(apply_omit_filter(data))
    } else {
        None
    };
    let shown: &ReportData = match &filtered {
        Some(d) => d,
        None => data,
    };
    let show_root = shown.multi_root;
    let mut sections: Vec<String> = Vec::new();
    sections.push(uncommitted::render(shown, style, show_root));
    sections.push(staged::render(shown, style, show_root));
    sections.push(pushable::render(shown, style, show_root, humanize));
    if shown.git_rewrite.is_some() {
        sections.push(git_rewrite::render(shown, style, humanize));
    }
    if shown.untracked_enabled && !omit_non_actionable {
        sections.push(other::render(shown, style, humanize));
    }
    let r = join_texts(&sections, "\n");
    assert(views(sections@).len() == table_count(data@, omit_non_actionable));
    r
}

} // verus!
