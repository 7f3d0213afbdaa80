//! The table of branches that are ahead of their upstreams.

use vstd::prelude::*;
use crate::order::{keys_before, sort_by, sorted_by, texts, Order};
use crate::output::tab::style::{cells_of, render_section, Section};
use crate::output::tab::TabStyle;
use crate::report::format::shows_age;
use crate::text::{decimal, decimal_string};
use crate::types::{views, PushableEntry, PushableView, ReportData};

verus! {

/// Orders pushable branches by repository and branch, and before that by
/// search root where roots are shown.
pub struct ByRootRepoBranch {
    pub show_root: bool,
}

impl Order<PushableEntry> for ByRootRepoBranch {
    open spec fn key(&self, item: PushableView) -> Seq<Seq<char>> {
        seq![
            if self.show_root {
                item.root_display
            } else {
                Seq::empty()
            },
            item.repo,
            item.branch,
        ]
    }

    fn before(&self, a: &PushableEntry, b: &PushableEntry) -> (r: bool) {
        proof {
            reveal_strlit("");
            assert(""@ =~= Seq::<char>::empty());
        }
        let ra = if self.show_root {
            a.root_display.as_str()
        } else {
            ""
        };
        let rb = if self.show_root {
            b.root_display.as_str()
        } else {
            ""
        };
        let ka = [ra, a.repo.as_str(), a.branch.as_str()];
        let kb = [rb, b.repo.as_str(), b.branch.as_str()];
        assert(texts(ka@) =~= self.key(a@));
        assert(texts(kb@) =~= self.key(b@));
        keys_before(&ka, &kb)
    }
}

/// The pushable branches in the order in which they are shown.
pub fn sorted_rows(data: &ReportData, show_root: bool) -> (rows: Vec<PushableEntry>)
    ensures
        views(rows@) == sorted_by::<PushableEntry, ByRootRepoBranch>(
            ByRootRepoBranch { show_root },
            data@.pushable,
        ),
{
    let mut rows: Vec<PushableEntry> = Vec::new();
    let mut i: usize = 0;
    let ghost all = data@.pushable;
    assert(views(rows@) =~= all.take(0));
    while i < data.pushable.len()
        invariant
            i <= data.pushable.len(),
            all == data@.pushable,
            views(rows@) == all.take(i as int),
        decreases data.pushable.len() - i,
    {
        let ghost before = views(rows@);
        rows.push(data.pushable[i].duplicate());
        assert(views(rows@) =~= before.push(all[i as int]));
        assert(all.take(i + 1) =~= all.take(i as int).push(all[i as int]));
        i += 1;
    }
    assert(all.take(data.pushable.len() as int) =~= all);
    sort_by(&mut rows, &ByRootRepoBranch { show_root });
    rows
}

/// The names of the columns.
pub open spec fn pushable_header(show_root: bool) -> Seq<Seq<char>> {
    if show_root {
        seq!["Root"@, "Repo"@, "Branch"@, "Commits"@, "Earliest"@, "Latest"@]
    } else {
        seq!["Repo"@, "Branch"@, "Commits"@, "Earliest"@, "Latest"@]
    }
}

/// Computes `pushable_header`.
pub fn push_header(show_root: bool) -> (r: Vec<String>)
    ensures
        views(r@) == pushable_header(show_root),
{
    let mut r: Vec<String> = Vec::new();
    if show_root {
        r.push("Root".to_owned());
    }
    r.push("Repo".to_owned());
    r.push("Branch".to_owned());
    r.push("Commits".to_owned());
    r.push("Earliest".to_owned());
    r.push("Latest".to_owned());
    assert(views(r@) =~= pushable_header(show_root));
    r
}

/// The cells that show one pushable branch, given its two ages as shown.
pub open spec fn pushable_cells(
    e: PushableView,
    show_root: bool,
    earliest: Seq<char>,
    latest: Seq<char>,
) -> Seq<Seq<char>> {
    if show_root {
        seq![e.root_display, e.repo, e.branch, decimal(e.revs as nat), earliest, latest]
    } else {
        seq![e.repo, e.branch, decimal(e.revs as nat), earliest, latest]
    }
}

/// Whether `cells` show `e` with its ages shown by `humanize`.
pub open spec fn are_pushable_cells<H: Fn(u64) -> String>(
    humanize: H,
    e: PushableView,
    show_root: bool,
    cells: Seq<Seq<char>>,
) -> bool {
    exists|earliest: String, latest: String| #[trigger]
        shows_age(humanize, e.earliest_secs, earliest) && #[trigger] shows_age(
            humanize,
            e.latest_secs,
            latest,
        ) && cells == pushable_cells(e, show_root, earliest@, latest@)
}

/// Shows an age.
pub fn format_age<H: Fn(u64) -> String>(value: Option<u64>, humanize: &H) -> (r: String)
    requires
        forall|secs: u64| call_requires(*humanize, (secs,)),
    ensures
        shows_age(*humanize, value, r),
{
    crate::report::format::format_age(value, humanize)
}

/// The cells that show one pushable branch.
pub fn row_values<H: Fn(u64) -> String>(entry: &PushableEntry, show_root: bool, humanize: &H) -> (r: Vec<
    String,
>)
    requires
        forall|secs: u64| call_requires(*humanize, (secs,)),
    ensures
        are_pushable_cells(*humanize, entry@, show_root, views(r@)),
{
    let earliest = format_age(entry.earliest_secs, humanize);
    let latest = format_age(entry.latest_secs, humanize);
    let ghost shown = (earliest, latest);
    let mut r: Vec<String> = Vec::new();
    if show_root {
        r.push(entry.root_display.clone());
    }
    r.push(entry.repo.clone());
    r.push(entry.branch.clone());
    r.push(decimal_string(entry.revs));
    r.push(earliest);
    r.push(latest);
    assert(views(r@) =~= pushable_cells(entry@, show_root, shown.0@, shown.1@));
    r
}

/// Whether `records` are the records of the table for `rows`: none where
/// there are no rows, else the names of the columns and a record for each row.
pub open spec fn are_pushable_records<H: Fn(u64) -> String>(
    humanize: H,
    rows: Seq<PushableView>,
    show_root: bool,
    records: Seq<Seq<Seq<char>>>,
) -> bool {
    if rows.len() == 0 {
        records.len() == 0
    } else {
        &&& records.len() == rows.len() + 1
        &&& records[0] == pushable_header(show_root)
        &&& forall|i: int|
            0 <= i < rows.len() ==> are_pushable_cells(
                humanize,
                rows[i],
                show_root,
                #[trigger] records[i + 1],
            )
    }
}

/// What the table of pushable branches shows: the branches ordered by
/// repository and branch, and by root first where roots are shown.
pub fn section<H: Fn(u64) -> String>(data: &ReportData, show_root: bool, humanize: &H) -> (s: Section)
    requires
        forall|secs: u64| call_requires(*humanize, (secs,)),
    ensures
        s.title@ == "Pushable Commits"@,
        are_pushable_records(
            *humanize,
            sorted_by::<PushableEntry, ByRootRepoBranch>(
                ByRootRepoBranch { show_root },
                data@.pushable,
            ),
            show_root,
            cells_of(s.records@),
        ),
        s.right_columns@ == seq![
            if show_root {
                3usize
            } else {
                2usize
            },
        ],
{
    let mut records: Vec<Vec<String>> = Vec::new();
    let rows = sorted_rows(data, show_root);
    proof {
        crate::order::lemma_sorted_by::<PushableEntry, ByRootRepoBranch>(
            ByRootRepoBranch { show_root },
            data@.pushable,
        );
    }
    if rows.len() > 0 {
        records.push(push_header(show_root));
        let mut i: usize = 0;
        while i < rows.len()
            invariant
                i <= rows.len(),
                records.len() == i + 1,
                cells_of(records@)[0] == pushable_header(show_root),
                forall|secs: u64| call_requires(*humanize, (secs,)),
                forall|k: int|
                    0 <= k < i ==> are_pushable_cells(
                        *humanize,
                        views(rows@)[k],
                        show_root,
                        #[trigger] cells_of(records@)[k + 1],
                    ),
            decreases rows.len() - i,
        {
            let ghost before = cells_of(records@);
            let cells = row_values(&rows[i], show_root, humanize);
            let ghost added = views(cells@);
            records.push(cells);
            proof {
                assert(cells_of(records@) =~= before.push(added));
                assert forall|k: int| 0 <= k < i + 1 implies are_pushable_cells(
                    *humanize,
                    views(rows@)[k],
                    show_root,
                    #[trigger] cells_of(records@)[k + 1],
                ) by {
                    if k < i {
                        assert(cells_of(records@)[k + 1] == before[k + 1]);
                    }
                }
            }
            i += 1;
        }
    }
    let mut right_columns: Vec<usize> = Vec::new();
    right_columns.push(if show_root {
        3
    } else {
        2
    });
    assert(right_columns@ =~= seq![
        if show_root {
            3usize
        } else {
            2usize
        },
    ]);
    Section { title: "Pushable Commits".to_owned(), records, right_columns }
}

/// The table of pushable branches.
pub fn render<H: Fn(u64) -> String>(data: &ReportData, style: TabStyle, show_root: bool, humanize: &H) -> String
    requires
        forall|secs: u64| call_requires(*humanize, (secs,)),
{
    render_section(section(data, show_root, humanize), style)
}

} // verus!
