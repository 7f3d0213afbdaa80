//! The table of staged changes.

use vstd::prelude::*;
use crate::output::tab::style::{cells_of, render_section, Section};
use crate::output::tab::TabStyle;
use crate::text::{decimal, decimal_string};
use crate::types::{views, ChangeView, ReportData};

verus! {

/// The names of the columns of a table of changes; the root stands first
/// where roots are shown.
pub open spec fn change_header(show_root: bool) -> Seq<Seq<char>> {
    if show_root {
        seq!["Root"@, "Repo"@, "Branch"@, "Lines"@, "Files"@, "Untracked"@]
    } else {
        seq!["Repo"@, "Branch"@, "Lines"@, "Files"@, "Untracked"@]
    }
}

/// The cells that show one set of changes.
pub open spec fn change_cells(e: ChangeView, show_root: bool) -> Seq<Seq<char>> {
    if show_root {
        seq![
            e.root_display,
            e.repo,
            e.branch,
            decimal(e.lines as nat),
            decimal(e.files as nat),
            decimal(e.untracked as nat),
        ]
    } else {
        seq![
            e.repo,
            e.branch,
            decimal(e.lines as nat),
            decimal(e.files as nat),
            decimal(e.untracked as nat),
        ]
    }
}

/// The records of a table of changes: none where there are no changes, else
/// the names of the columns and a record for each set of changes.
pub open spec fn change_records(entries: Seq<ChangeView>, show_root: bool) -> Seq<Seq<Seq<char>>> {
    if entries.len() == 0 {
        Seq::empty()
    } else {
        seq![change_header(show_root)] + entries.map_values(
            |e: ChangeView| change_cells(e, show_root),
        )
    }
}

/// The columns of a table of changes that hold numbers.
pub open spec fn change_right_columns(show_root: bool) -> Seq<usize> {
    if show_root {
        seq![3usize, 4usize, 5usize]
    } else {
        seq![2usize, 3usize, 4usize]
    }
}

/// Computes `change_header`.
pub fn make_change_header(show_root: bool) -> (r: Vec<String>)
    ensures
        views(r@) == change_header(show_root),
{
    let mut r: Vec<String> = Vec::new();
    if show_root {
        r.push("Root".to_owned());
    }
    r.push("Repo".to_owned());
    r.push("Branch".to_owned());
    r.push("Lines".to_owned());
    r.push("Files".to_owned());
    r.push("Untracked".to_owned());
    assert(views(r@) =~= change_header(show_root));
    r
}

/// The cells that show one set of changes.
pub fn make_change_cells(
    root_display: &str,
    repo: &str,
    branch: &str,
    lines: u64,
    files: u64,
    untracked: u64,
    show_root: bool,
) -> (r: Vec<String>)
    ensures
        views(r@) == change_cells(
            ChangeView {
                repo: repo@,
                branch: branch@,
                lines,
                files,
                untracked,
                root_display: root_display@,
                root_full: Seq::empty(),
            },
            show_root,
        ),
{
    let mut r: Vec<String> = Vec::new();
    if show_root {
        r.push(root_display.to_owned());
    }
    r.push(repo.to_owned());
    r.push(branch.to_owned());
    r.push(decimal_string(lines));
    r.push(decimal_string(files));
    r.push(decimal_string(untracked));
    assert(views(r@) =~= change_cells(
        ChangeView {
            repo: repo@,
            branch: branch@,
            lines,
            files,
            untracked,
            root_display: root_display@,
            root_full: Seq::empty(),
        },
        show_root,
    ));
    r
}

/// Computes `change_right_columns`.
pub fn make_change_right_columns(show_root: bool) -> (r: Vec<usize>)
    ensures
        r@ == change_right_columns(show_root),
{
    let mut r: Vec<usize> = Vec::new();
    if show_root {
        r.push(3);
        r.push(4);
        r.push(5);
    } else {
        r.push(2);
        r.push(3);
        r.push(4);
    }
    assert(r@ =~= change_right_columns(show_root));
    r
}

/// What the table of staged changes shows.
pub fn section(data: &ReportData, show_root: bool) -> (s: Section)
    ensures
        s.title@ == "Staged Changes"@,
        cells_of(s.records@) == change_records(data@.staged, show_root),
        s.right_columns@ == change_right_columns(show_root),
{
    let mut records: Vec<Vec<String>> = Vec::new();
    let ghost wanted = change_records(data@.staged, show_root);
    if data.staged.len() > 0 {
        records.push(make_change_header(show_root));
        let mut i: usize = 0;
        assert(cells_of(records@) =~= wanted.take(1));
        while i < data.staged.len()
            invariant
                i <= data.staged.len(),
                data.staged.len() > 0,
                wanted == change_records(data@.staged, show_root),
                cells_of(records@) == wanted.take(i + 1),
            decreases data.staged.len() - i,
        {
            let e = &data.staged[i];
            let ghost before = cells_of(records@);
            let cells = make_change_cells(
                e.root_display.as_str(),
                e.repo.as_str(),
                e.branch.as_str(),
                e.lines,
                e.files,
                e.untracked,
                show_root,
            );
            assert(views(cells@) == wanted[i + 1]);
            records.push(cells);
            assert(cells_of(records@) =~= before.push(wanted[i + 1]));
            assert(wanted.take(i + 2) =~= wanted.take(i + 1).push(wanted[i + 1]));
            i += 1;
        }
        assert(wanted.take(data.staged.len() + 1) =~= wanted);
    } else {
        assert(cells_of(records@) =~= wanted);
    }
    Section {
        title: "Staged Changes".to_owned(),
        records,
        right_columns: make_change_right_columns(show_root),
    }
}

/// The table of staged changes.
pub fn render(data: &ReportData, style: TabStyle, show_root: bool) -> String {
    render_section(section(data, show_root), style)
}

} // verus!
