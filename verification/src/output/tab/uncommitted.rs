//! The table of uncommitted changes.

use vstd::prelude::*;
use crate::output::tab::staged::{
    change_records, change_right_columns, make_change_cells, make_change_header,
    make_change_right_columns,
};
use crate::output::tab::style::{cells_of, render_section, Section};
use crate::output::tab::TabStyle;
use crate::types::{views, ReportData};

verus! {

/// What the table of uncommitted changes shows.
pub fn section(data: &ReportData, show_root: bool) -> (s: Section)
    ensures
        s.title@ == "Uncommitted Changes"@,
        cells_of(s.records@) == change_records(data@.uncommitted, show_root),
        s.right_columns@ == change_right_columns(show_root),
{
    let mut records: Vec<Vec<String>> = Vec::new();
    let ghost wanted = change_records(data@.uncommitted, show_root);
    if data.uncommitted.len() > 0 {
        records.push(make_change_header(show_root));
        let mut i: usize = 0;
        assert(cells_of(records@) =~= wanted.take(1));
        while i < data.uncommitted.len()
            invariant
                i <= data.uncommitted.len(),
                data.uncommitted.len() > 0,
                wanted == change_records(data@.uncommitted, show_root),
                cells_of(records@) == wanted.take(i + 1),
            decreases data.uncommitted.len() - i,
        {
            let e = &data.uncommitted[i];
            let ghost before = cells_of(records@);
            let cells = make_change_cells(
                e.root_display.as_str(),
                e.repo.as_str(),
                e.branch.as_str(),
                e.lines,
                e.files,
                e.untracked,
                show_root,
            );
            assert(views(cells@) == wanted[i + 1]);
            records.push(cells);
            assert(cells_of(records@) =~= before.push(wanted[i + 1]));
            assert(wanted.take(i + 2) =~= wanted.take(i + 1).push(wanted[i + 1]));
            i += 1;
        }
        assert(wanted.take(data.uncommitted.len() + 1) =~= wanted);
    } else {
        assert(cells_of(records@) =~= wanted);
    }
    Section {
        title: "Uncommitted Changes".to_owned(),
        records,
        right_columns: make_change_right_columns(show_root),
    }
}

/// The table of uncommitted changes.
pub fn render(data: &ReportData, style: TabStyle, show_root: bool) -> String {
    render_section(section(data, show_root), style)
}

} // verus!
