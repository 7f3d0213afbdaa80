//! The table of the repositories outside the audit.

use vstd::prelude::*;
use crate::output::tab::style::{cells_of, render_section, Section};
use crate::output::tab::TabStyle;
use crate::report::format::{count_text, format_age, shows_age};
use crate::text::{decimal_string, with_colon};
use crate::types::{views, ReportData, UntrackedReason, UntrackedView};

verus! {

/// The names of the columns.
pub open spec fn other_header() -> Seq<Seq<char>> {
    seq!["Source"@, "Status"@, "Commits"@, "Earliest"@, "Latest"@]
}

/// The word that a reason is shown as.
pub open spec fn status_word(reason: UntrackedReason) -> Seq<char> {
    match reason {
        UntrackedReason::Ignored => "ignored"@,
        UntrackedReason::MissingConfig => "untracked"@,
        UntrackedReason::MissingRepo => "missing"@,
    }
}

/// The cells that show one repository, given its two ages as shown.
pub open spec fn other_cells(e: UntrackedView, earliest: Seq<char>, latest: Seq<char>) -> Seq<
    Seq<char>,
> {
    seq![e.repo + ":"@ + e.branch, status_word(e.reason), count_text(e.revs), earliest, latest]
}

/// Whether `cells` show `e` with its ages shown by `humanize`.
pub open spec fn are_other_cells<H: Fn(u64) -> String>(
    humanize: H,
    e: UntrackedView,
    cells: Seq<Seq<char>>,
) -> bool {
    exists|earliest: String, latest: String| #[trigger]
        shows_age(humanize, e.earliest_secs, earliest) && #[trigger] shows_age(
            humanize,
            e.latest_secs,
            latest,
        ) && cells == other_cells(e, earliest@, latest@)
}

/// Whether `records` are the records of the table for `rows`.
pub open spec fn are_other_records<H: Fn(u64) -> String>(
    humanize: H,
    rows: Seq<UntrackedView>,
    records: Seq<Seq<Seq<char>>>,
) -> bool {
    if rows.len() == 0 {
        records.len() == 0
    } else {
        &&& records.len() == rows.len() + 1
        &&& records[0] == other_header()
        &&& forall|i: int|
            0 <= i < rows.len() ==> are_other_cells(humanize, rows[i], #[trigger] records[i + 1])
    }
}

/// What the table of the repositories outside the audit shows: the
/// repositories in the order in which the report holds them.
pub fn section<H: Fn(u64) -> String>(data: &ReportData, humanize: &H) -> (s: Section)
    requires
        forall|secs: u64| call_requires(*humanize, (secs,)),
    ensures
        s.title@ == "Other Repos"@,
        are_other_records(*humanize, data@.untracked_repos, cells_of(s.records@)),
        s.right_columns@ == seq![2usize],
{
    let mut records: Vec<Vec<String>> = Vec::new();
    let rows = &data.untracked_repos;
    if rows.len() > 0 {
        let mut header: Vec<String> = Vec::new();
        header.push("Source".to_owned());
        header.push("Status".to_owned());
        header.push("Commits".to_owned());
        header.push("Earliest".to_owned());
        header.push("Latest".to_owned());
        assert(views(header@) =~= other_header());
        records.push(header);
        let mut i: usize = 0;
        while i < rows.len()
            invariant
                i <= rows.len(),
                records.len() == i + 1,
                cells_of(records@)[0] == other_header(),
                forall|secs: u64| call_requires(*humanize, (secs,)),
                forall|k: int|
                    0 <= k < i ==> are_other_cells(
                        *humanize,
                        views(rows@)[k],
                        #[trigger] cells_of(records@)[k + 1],
                    ),
            decreases rows.len() - i,
        {
            let entry = &rows[i];
            let ghost before = cells_of(records@);
            let earliest = format_age(entry.earliest_secs, humanize);
            let latest = format_age(entry.latest_secs, humanize);
            let ghost shown = (earliest, latest);
            let commits = match entry.revs {
                Some(n) => decimal_string(n),
                None => "n/a".to_owned(),
            };
            let status = match entry.reason {
                UntrackedReason::Ignored => "ignored",
                UntrackedReason::MissingConfig => "untracked",
                UntrackedReason::MissingRepo => "missing",
            };
            let mut cells: Vec<String> = Vec::new();
            cells.push(with_colon(entry.repo.as_str(), entry.branch.as_str()));
            cells.push(status.to_owned());
            cells.push(commits);
            cells.push(earliest);
            cells.push(latest);
            assert(views(cells@) =~= other_cells(entry@, shown.0@, shown.1@));
            let ghost added = views(cells@);
            records.push(cells);
            proof {
                assert(cells_of(records@) =~= before.push(added));
                assert forall|k: int| 0 <= k < i + 1 implies are_other_cells(
                    *humanize,
                    views(rows@)[k],
                    #[trigger] cells_of(records@)[k + 1],
                ) by {
                    if k < i {
                        assert(cells_of(records@)[k + 1] == before[k + 1]);
                    }
                }
            }
            i += 1;
        }
    }
    let mut right_columns: Vec<usize> = Vec::new();
    right_columns.push(2);
    assert(right_columns@ =~= seq![2usize]);
    Section { title: "Other Repos".to_owned(), records, right_columns }
}

/// The table of the repositories outside the audit.
pub fn render<H: Fn(u64) -> String>(data: &ReportData, style: TabStyle, humanize: &H) -> String
    requires
        forall|secs: u64| call_requires(*humanize, (secs,)),
{
    render_section(section(data, humanize), style)
}

} // verus!
