//! The table of the audit's findings.

use vstd::prelude::*;
use crate::git_rewrite::executor::BySourceAndTarget;
use crate::order::{sort_by, sorted_by};
use crate::output::tab::style::{cells_of, render_section, Section};
use crate::output::tab::TabStyle;
use crate::report::format::{format_age, shows_age};
use crate::text::{decimal, decimal_string, with_colon};
use crate::types::{views, GitRewriteEntry, GitRewriteView, ReportData};

verus! {

/// The names of the columns.
pub open spec fn git_rewrite_header() -> Seq<Seq<char>> {
    seq!["Source"@, "Target"@, "Commits"@, "Earliest"@, "Latest"@]
}

/// The cells that show one finding, given its two ages as shown: each
/// repository is named with its branch behind a colon.
pub open spec fn git_rewrite_cells(e: GitRewriteView, earliest: Seq<char>, latest: Seq<char>) -> Seq<
    Seq<char>,
> {
    seq![
        e.source_repo + ":"@ + e.source_branch,
        e.target_repo + ":"@ + e.target_branch,
        decimal(e.commits as nat),
        earliest,
        latest,
    ]
}

/// Whether `cells` show `e` with its ages shown by `humanize`.
pub open spec fn are_git_rewrite_cells<H: Fn(u64) -> String>(
    humanize: H,
    e: GitRewriteView,
    cells: Seq<Seq<char>>,
) -> bool {
    exists|earliest: String, latest: String| #[trigger]
        shows_age(humanize, e.earliest_secs, earliest) && #[trigger] shows_age(
            humanize,
            e.latest_secs,
            latest,
        ) && cells == git_rewrite_cells(e, earliest@, latest@)
}

/// Whether `records` are the records of the table for `rows`.
pub open spec fn are_git_rewrite_records<H: Fn(u64) -> String>(
    humanize: H,
    rows: Seq<GitRewriteView>,
    records: Seq<Seq<Seq<char>>>,
) -> bool {
    if rows.len() == 0 {
        records.len() == 0
    } else {
        &&& records.len() == rows.len() + 1
        &&& records[0] == git_rewrite_header()
        &&& forall|i: int|
            0 <= i < rows.len() ==> are_git_rewrite_cells(
                humanize,
                rows[i],
                #[trigger] records[i + 1],
            )
    }
}

/// The findings of a report; none where no audit was made.
pub open spec fn findings_of(data: ReportData) -> Seq<GitRewriteView> {
    match data.git_rewrite {
        Some(entries) => views(entries@),
        None => Seq::empty(),
    }
}

/// What the table of findings shows: the findings ordered by source and target.
pub fn section<H: Fn(u64) -> String>(data: &ReportData, humanize: &H) -> (s: Section)
    requires
        data.git_rewrite is Some,
        forall|secs: u64| call_requires(*humanize, (secs,)),
    ensures
        s.title@ == "Git Rewrite"@,
        are_git_rewrite_records(
            *humanize,
            sorted_by::<GitRewriteEntry, BySourceAndTarget>(BySourceAndTarget, findings_of(*data)),
            cells_of(s.records@),
        ),
        s.right_columns@ == seq![2usize],
{
    let mut rows: Vec<GitRewriteEntry> = Vec::new();
    let ghost all = findings_of(*data);
    match &data.git_rewrite {
        Some(entries) => {
            let mut i: usize = 0;
            assert(views(rows@) =~= all.take(0));
            while i < entries.len()
                invariant
                    i <= entries.len(),
                    all == views(entries@),
                    views(rows@) == all.take(i as int),
                decreases entries.len() - i,
            {
                let ghost before = views(rows@);
                rows.push(entries[i].duplicate());
                assert(views(rows@) =~= before.push(all[i as int]));
                assert(all.take(i + 1) =~= all.take(i as int).push(all[i as int]));
                i += 1;
            }
            assert(all.take(entries.len() as int) =~= all);
        },
        None => {},
    }
    sort_by(&mut rows, &BySourceAndTarget);
    proof {
        crate::order::lemma_sorted_by::<GitRewriteEntry, BySourceAndTarget>(BySourceAndTarget, all);
    }
    let mut records: Vec<Vec<String>> = Vec::new();
    if rows.len() > 0 {
        let mut header: Vec<String> = Vec::new();
        header.push("Source".to_owned());
        header.push("Target".to_owned());
        header.push("Commits".to_owned());
        header.push("Earliest".to_owned());
        header.push("Latest".to_owned());
        assert(views(header@) =~= git_rewrite_header());
        records.push(header);
        let mut i: usize = 0;
        while i < rows.len()
            invariant
                i <= rows.len(),
                records.len() == i + 1,
                cells_of(records@)[0] == git_rewrite_header(),
                forall|secs: u64| call_requires(*humanize, (secs,)),
                forall|k: int|
                    0 <= k < i ==> are_git_rewrite_cells(
                        *humanize,
                        views(rows@)[k],
                        #[trigger] cells_of(records@)[k + 1],
                    ),
            decreases rows.len() - i,
        {
            let entry = &rows[i];
            let ghost before = cells_of(records@);
            let earliest = format_age(entry.earliest_secs, humanize);
            let latest = format_age(entry.latest_secs, humanize);
            let ghost shown = (earliest, latest);
            let mut cells: Vec<String> = Vec::new();
            cells.push(with_colon(entry.source_repo.as_str(), entry.source_branch.as_str()));
            cells.push(with_colon(entry.target_repo.as_str(), entry.target_branch.as_str()));
            cells.push(decimal_string(entry.commits));
            cells.push(earliest);
            cells.push(latest);
            assert(views(cells@) =~= git_rewrite_cells(entry@, shown.0@, shown.1@));
            let ghost added = views(cells@);
            records.push(cells);
            proof {
                assert(cells_of(records@) =~= before.push(added));
                assert forall|k: int| 0 <= k < i + 1 implies are_git_rewrite_cells(
                    *humanize,
                    views(rows@)[k],
                    #[trigger] cells_of(records@)[k + 1],
                ) by {
                    if k < i {
                        assert(cells_of(records@)[k + 1] == before[k + 1]);
                    }
                }
            }
            i += 1;
        }
    }
    let mut right_columns: Vec<usize> = Vec::new();
    right_columns.push(2);
    assert(right_columns@ =~= seq![2usize]);
    Section { title: "Git Rewrite".to_owned(), records, right_columns }
}

/// The table of the audit's findings. There must be an audit to show.
pub fn render<H: Fn(u64) -> String>(data: &ReportData, style: TabStyle, humanize: &H) -> String
    requires
        data.git_rewrite is Some,
        forall|secs: u64| call_requires(*humanize, (secs,)),
{
    render_section(section(data, humanize), style)
}

} // verus!
