//! The report in words: one line for each kind of finding.

use vstd::prelude::*;
use crate::git::runner::GitRunner;
use crate::report::collector::{collect_report_data, is_collection};
use crate::system::{Clock, FsOps};
use crate::text::{decimal, join_texts, joined, push_decimal, push_str};
use crate::types::{
    views, ChangeView, GitRewriteEntry, GitRewriteView, Options, PushableEntry, PushableView,
    ReportData, ReportView, StagedEntry, UncommittedEntry, UntrackedReason, UntrackedRepoEntry,
    UntrackedView,
};

verus! {

/// An entry that tells the size of a set of changes.
pub trait ChangeEntry {
    /// What the entry tells.
    spec fn summary(&self) -> ChangeView;

    fn repo(&self) -> (r: &str)
        ensures
            r@ == self.summary().repo,
    ;

    fn lines(&self) -> (r: u64)
        ensures
            r == self.summary().lines,
    ;

    fn files(&self) -> (r: u64)
        ensures
            r == self.summary().files,
    ;

    fn untracked(&self) -> (r: u64)
        ensures
            r == self.summary().untracked,
    ;
}

impl ChangeEntry for UncommittedEntry {
    open spec fn summary(&self) -> ChangeView {
        self@
    }

    fn repo(&self) -> (r: &str) {
        self.repo.as_str()
    }

    fn lines(&self) -> (r: u64) {
        self.lines
    }

    fn files(&self) -> (r: u64) {
        self.files
    }

    fn untracked(&self) -> (r: u64) {
        self.untracked
    }
}

impl ChangeEntry for StagedEntry {
    open spec fn summary(&self) -> ChangeView {
        self@
    }

    fn repo(&self) -> (r: &str) {
        self.repo.as_str()
    }

    fn lines(&self) -> (r: u64) {
        self.lines
    }

    fn files(&self) -> (r: u64) {
        self.files
    }

    fn untracked(&self) -> (r: u64) {
        self.untracked
    }
}

/// An age as it is shown: what `humanize` makes of the seconds, and `n/a`
/// where there is no age.
pub open spec fn shows_age<F: Fn(u64) -> String>(humanize: F, value: Option<u64>, shown: String) -> bool {
    match value {
        Some(secs) => call_ensures(humanize, (secs,), shown),
        None => shown@ == "n/a"@,
    }
}

/// Shows an age.
pub fn format_age<F: Fn(u64) -> String>(value: Option<u64>, humanize: &F) -> (r: String)
    requires
        forall|secs: u64| call_requires(*humanize, (secs,)),
    ensures
        shows_age(*humanize, value, r),
{
    match value {
        Some(secs) => humanize(secs),
        None => "n/a".to_owned(),
    }
}

/// The words for a set of changes.
pub open spec fn change_row(e: ChangeView) -> Seq<char> {
    e.repo + " ("@ + decimal(e.lines as nat) + " lines, "@ + decimal(e.files as nat) + " files, "@
        + decimal(e.untracked as nat) + " untracked)"@
}

/// The summaries of a list of change entries.
pub open spec fn summaries<T: ChangeEntry>(entries: Seq<T>) -> Seq<ChangeView> {
    entries.map_values(|e: T| e.summary())
}

/// The words for each set of changes.
pub fn change_rows<T: ChangeEntry>(entries: &Vec<T>) -> (rows: Vec<String>)
    ensures
        views(rows@) == summaries(entries@).map_values(|e: ChangeView| change_row(e)),
{
    let mut rows: Vec<String> = Vec::new();
    let mut i: usize = 0;
    let ghost wanted = summaries(entries@).map_values(|e: ChangeView| change_row(e));
    assert(views(rows@) =~= wanted.take(0));
    while i < entries.len()
        invariant
            i <= entries.len(),
            wanted == summaries(entries@).map_values(|e: ChangeView| change_row(e)),
            views(rows@) == wanted.take(i as int),
        decreases entries.len() - i,
    {
        let entry = &entries[i];
        let ghost before = views(rows@);
        let mut row = String::new();
        push_str(&mut row, entry.repo());
        push_str(&mut row, " (");
        push_decimal(&mut row, entry.lines());
        push_str(&mut row, " lines, ");
        push_decimal(&mut row, entry.files());
        push_str(&mut row, " files, ");
        push_decimal(&mut row, entry.untracked());
        push_str(&mut row, " untracked)");
        assert(row@ =~= change_row(entry.summary()));
        rows.push(row);
        assert(views(rows@) =~= before.push(wanted[i as int]));
        assert(wanted.take(i + 1) =~= wanted.take(i as int).push(wanted[i as int]));
        i += 1;
    }
    assert(wanted.take(entries.len() as int) =~= wanted);
    rows
}

/// The words for a pushable branch, given its two ages as they are shown. A
/// branch that is not ahead is named and no more.
pub open spec fn pushable_row(e: PushableView, earliest: Seq<char>, latest: Seq<char>) -> Seq<char> {
    if e.revs > 0 {
        e.repo + " ("@ + decimal(e.revs as nat) + " revs, earliest: "@ + earliest
            + " ago, latest: "@ + latest + " ago)"@
    } else {
        e.repo
    }
}

/// Whether `row` is the words for `e` with its ages shown by `humanize`.
pub open spec fn is_pushable_row<F: Fn(u64) -> String>(humanize: F, e: PushableView, row: Seq<char>) -> bool {
    exists|earliest: String, latest: String| #[trigger]
        shows_age(humanize, e.earliest_secs, earliest) && #[trigger] shows_age(
            humanize,
            e.latest_secs,
            latest,
        ) && row == pushable_row(e, earliest@, latest@)
}

/// The words for each pushable branch.
pub fn pushable_rows<F: Fn(u64) -> String>(entries: &Vec<PushableEntry>, humanize: &F) -> (rows: Vec<
    String,
>)
    requires
        forall|secs: u64| call_requires(*humanize, (secs,)),
    ensures
        rows@.len() == entries@.len(),
        forall|i: int|
            0 <= i < rows@.len() ==> is_pushable_row(*humanize, entries@[i]@, #[trigger] rows@[i]@),
{
    let mut rows: Vec<String> = Vec::new();
    let mut i: usize = 0;
    while i < entries.len()
        invariant
            i <= entries.len(),
            rows@.len() == i,
            forall|secs: u64| call_requires(*humanize, (secs,)),
            forall|k: int|
                0 <= k < i ==> is_pushable_row(*humanize, entries@[k]@, #[trigger] rows@[k]@),
        decreases entries.len() - i,
    {
        let entry = &entries[i];
        let earliest = format_age(entry.earliest_secs, humanize);
        let latest = format_age(entry.latest_secs, humanize);
        let mut row = String::new();
        push_str(&mut row, entry.repo.as_str());
        if entry.revs > 0 {
            push_str(&mut row, " (");
            push_decimal(&mut row, entry.revs);
            push_str(&mut row, " revs, earliest: ");
            push_str(&mut row, earliest.as_str());
            push_str(&mut row, " ago, latest: ");
            push_str(&mut row, latest.as_str());
            push_str(&mut row, " ago)");
        }
        assert(row@ =~= pushable_row(entry@, earliest@, latest@));
        assert(is_pushable_row(*humanize, entry@, row@));
        rows.push(row);
        i += 1;
    }
    rows
}

/// The word for a reason.
pub open spec fn reason_word(reason: UntrackedReason) -> Seq<char> {
    match reason {
        UntrackedReason::Ignored => "ignored"@,
        UntrackedReason::MissingConfig => "missing-config"@,
        UntrackedReason::MissingRepo => "missing"@,
    }
}

/// A count as it is shown: its numeral, and `n/a` where there is none.
pub open spec fn count_text(value: Option<u64>) -> Seq<char> {
    match value {
        Some(n) => decimal(n as nat),
        None => "n/a"@,
    }
}

/// Writes a count as it is shown.
pub fn push_count(out: &mut String, value: Option<u64>)
    ensures
        final(out)@ == old(out)@ + count_text(value),
{
    match value {
        Some(n) => push_decimal(out, n),
        None => push_str(out, "n/a"),
    }
}

/// The words for a repository outside the audit, given its two ages as shown.
pub open spec fn untracked_row(e: UntrackedView, earliest: Seq<char>, latest: Seq<char>) -> Seq<char> {
    e.root_display + ":"@ + e.repo + " ("@ + reason_word(e.reason) + ", branch: "@ + e.branch
        + ", revs: "@ + count_text(e.revs) + ", earliest: "@ + earliest + " ago, latest: "@
        + latest + " ago)"@
}

/// Whether `row` is the words for `e` with its ages shown by `humanize`.
pub open spec fn is_untracked_row<F: Fn(u64) -> String>(humanize: F, e: UntrackedView, row: Seq<char>) -> bool {
    exists|earliest: String, latest: String| #[trigger]
        shows_age(humanize, e.earliest_secs, earliest) && #[trigger] shows_age(
            humanize,
            e.latest_secs,
            latest,
        ) && row == untracked_row(e, earliest@, latest@)
}

/// The words for each repository outside the audit.
pub fn untracked_rows<F: Fn(u64) -> String>(entries: &Vec<UntrackedRepoEntry>, humanize: &F) -> (rows: Vec<
    String,
>)
    requires
        forall|secs: u64| call_requires(*humanize, (secs,)),
    ensures
        rows@.len() == entries@.len(),
        forall|i: int|
            0 <= i < rows@.len() ==> is_untracked_row(*humanize, entries@[i]@, #[trigger] rows@[i]@),
{
    let mut rows: Vec<String> = Vec::new();
    let mut i: usize = 0;
    while i < entries.len()
        invariant
            i <= entries.len(),
            rows@.len() == i,
            forall|secs: u64| call_requires(*humanize, (secs,)),
            forall|k: int|
                0 <= k < i ==> is_untracked_row(*humanize, entries@[k]@, #[trigger] rows@[k]@),
        decreases entries.len() - i,
    {
        let entry = &entries[i];
        let earliest = format_age(entry.earliest_secs, humanize);
        let latest = format_age(entry.latest_secs, humanize);
        let mut row = String::new();
        push_str(&mut row, entry.root_display.as_str());
        push_str(&mut row, ":");
        push_str(&mut row, entry.repo.as_str());
        push_str(&mut row, " (");
        match entry.reason {
            UntrackedReason::Ignored => push_str(&mut row, "ignored"),
            UntrackedReason::MissingConfig => push_str(&mut row, "missing-config"),
            UntrackedReason::MissingRepo => push_str(&mut row, "missing"),
        }
        push_str(&mut row, ", branch: ");
        push_str(&mut row, entry.branch.as_str());
        push_str(&mut row, ", revs: ");
        push_count(&mut row, entry.revs);
        push_str(&mut row, ", earliest: ");
        push_str(&mut row, earliest.as_str());
        push_str(&mut row, " ago, latest: ");
        push_str(&mut row, latest.as_str());
        push_str(&mut row, " ago)");
        assert(row@ =~= untracked_row(entry@, earliest@, latest@));
        assert(is_untracked_row(*humanize, entry@, row@));
        rows.push(row);
        i += 1;
    }
    rows
}

/// The words for an audit finding, given its two ages as shown.
pub open spec fn git_rewrite_row(e: GitRewriteView, earliest: Seq<char>, latest: Seq<char>) -> Seq<
    char,
> {
    e.source_repo + "->"@ + e.target_repo + " (commits: "@ + decimal(e.commits as nat)
        + ", earliest: "@ + earliest + " ago, latest: "@ + latest + " ago)"@
}

/// Whether `row` is the words for `e` with its ages shown by `humanize`.
pub open spec fn is_git_rewrite_row<F: Fn(u64) -> String>(humanize: F, e: GitRewriteView, row: Seq<char>) -> bool {
    exists|earliest: String, latest: String| #[trigger]
        shows_age(humanize, e.earliest_secs, earliest) && #[trigger] shows_age(
            humanize,
            e.latest_secs,
            latest,
        ) && row == git_rewrite_row(e, earliest@, latest@)
}

/// The words for each audit finding.
pub fn git_rewrite_rows<F: Fn(u64) -> String>(entries: &Vec<GitRewriteEntry>, humanize: &F) -> (rows: Vec<
    String,
>)
    requires
        forall|secs: u64| call_requires(*humanize, (secs,)),
    ensures
        rows@.len() == entries@.len(),
        forall|i: int|
            0 <= i < rows@.len() ==> is_git_rewrite_row(
                *humanize,
                entries@[i]@,
                #[trigger] rows@[i]@,
            ),
{
    let mut rows: Vec<String> = Vec::new();
    let mut i: usize = 0;
    while i < entries.len()
        invariant
            i <= entries.len(),
            rows@.len() == i,
            forall|secs: u64| call_requires(*humanize, (secs,)),
            forall|k: int|
                0 <= k < i ==> is_git_rewrite_row(*humanize, entries@[k]@, #[trigger] rows@[k]@),
        decreases entries.len() - i,
    {
        let entry = &entries[i];
        let earliest = format_age(entry.earliest_secs, humanize);
        let latest = format_age(entry.latest_secs, humanize);
        let mut row = String::new();
        push_str(&mut row, entry.source_repo.as_str());
        push_str(&mut row, "->");
        push_str(&mut row, entry.target_repo.as_str());
        push_str(&mut row, " (commits: ");
        push_decimal(&mut row, entry.commits);
        push_str(&mut row, ", earliest: ");
        push_str(&mut row, earliest.as_str());
        push_str(&mut row, " ago, latest: ");
        push_str(&mut row, latest.as_str());
        push_str(&mut row, " ago)");
        assert(row@ =~= git_rewrite_row(entry@, earliest@, latest@));
        assert(is_git_rewrite_row(*humanize, entry@, row@));
        rows.push(row);
        i += 1;
    }
    rows
}

/// One line of the report: a label, then its rows with commas between them.
pub open spec fn section_text(label: Seq<char>, rows: Seq<Seq<char>>) -> Seq<char> {
    label + ": "@ + joined(rows, ", "@)
}

/// Computes `section_text`.
pub fn format_section(label: &str, rows: Vec<String>) -> (r: String)
    ensures
        r@ == section_text(label@, views(rows@)),
{
    let mut r = String::new();
    push_str(&mut r, label);
    push_str(&mut r, ": ");
    let body = join_texts(&rows, ", ");
    push_str(&mut r, body.as_str());
    assert(r@ =~= section_text(label@, views(rows@)));
    r
}

/// Whether `line` is the line of the pushable branches: its label, and the
/// words for each branch with its ages shown by `humanize`.
pub open spec fn is_pushable_line<F: Fn(u64) -> String>(
    humanize: F,
    entries: Seq<PushableView>,
    line: Seq<char>,
) -> bool {
    exists|rows: Seq<Seq<char>>|
        rows.len() == entries.len() && (forall|i: int|
            0 <= i < rows.len() ==> is_pushable_row(humanize, entries[i], #[trigger] rows[i]))
            && line == #[trigger] section_text("pushable"@, rows)
}

/// Whether `line` is the line of the repositories outside the audit.
pub open spec fn is_untracked_line<F: Fn(u64) -> String>(
    humanize: F,
    entries: Seq<UntrackedView>,
    line: Seq<char>,
) -> bool {
    exists|rows: Seq<Seq<char>>|
        rows.len() == entries.len() && (forall|i: int|
            0 <= i < rows.len() ==> is_untracked_row(humanize, entries[i], #[trigger] rows[i]))
            && line == #[trigger] section_text("untracked"@, rows)
}

/// Whether `line` is the line of the audit's findings.
pub open spec fn is_git_rewrite_line<F: Fn(u64) -> String>(
    humanize: F,
    entries: Seq<GitRewriteView>,
    line: Seq<char>,
) -> bool {
    exists|rows: Seq<Seq<char>>|
        rows.len() == entries.len() && (forall|i: int|
            0 <= i < rows.len() ==> is_git_rewrite_row(humanize, entries[i], #[trigger] rows[i]))
            && line == #[trigger] section_text("git_rewrite"@, rows)
}

/// Whether `lines` are the lines of the report on `data`: the uncommitted
/// changes, the staged changes and the pushable branches; then the
/// repositories outside the audit where they were looked for; then the
/// audit's findings where an audit was made. Ages are shown by `humanize`.
pub open spec fn are_report_lines<F: Fn(u64) -> String>(
    humanize: F,
    lines: Seq<Seq<char>>,
    data: ReportView,
) -> bool {
    let audit_at = if data.untracked_enabled {
        4int
    } else {
        3int
    };
    &&& lines.len() == audit_at + if data.git_rewrite is Some {
        1int
    } else {
        0int
    }
    &&& lines[0] == section_text(
        "uncommitted"@,
        data.uncommitted.map_values(|e: ChangeView| change_row(e)),
    )
    &&& lines[1] == section_text("staged"@, data.staged.map_values(|e: ChangeView| change_row(e)))
    &&& is_pushable_line(humanize, data.pushable, lines[2])
    &&& data.untracked_enabled ==> is_untracked_line(humanize, data.untracked_repos, lines[3])
    &&& data.git_rewrite is Some ==> is_git_rewrite_line(
        humanize,
        data.git_rewrite->0,
        lines[audit_at],
    )
}

/// The report on `data` in words: its lines, one below the other.
pub fn render_report<F: Fn(u64) -> String>(data: &ReportData, humanize: &F) -> (r: String)
    requires
        forall|secs: u64| call_requires(*humanize, (secs,)),
    ensures
        exists|lines: Seq<Seq<char>>|
            r@ == joined(lines, "\n"@) && #[trigger] are_report_lines(*humanize, lines, data@),
{
    let mut sections: Vec<String> = Vec::new();
    sections.push(format_section("uncommitted", change_rows(&data.uncommitted)));
    sections.push(format_section("staged", change_rows(&data.staged)));
    let rows = pushable_rows(&data.pushable, humanize);
    proof {
        let shown = views(rows@);
        assert forall|i: int| 0 <= i < shown.len() implies is_pushable_row(
            *humanize,
            data@.pushable[i],
            #[trigger] shown[i],
        ) by {
            assert(shown[i] == rows@[i]@);
        }
        assert(is_pushable_line(*humanize, data@.pushable, section_text("pushable"@, shown)));
    }
    sections.push(format_section("pushable", rows));
    if data.untracked_enabled {
        let rows = untracked_rows(&data.untracked_repos, humanize);
        proof {
            let shown = views(rows@);
            assert forall|i: int| 0 <= i < shown.len() implies is_untracked_row(
                *humanize,
                data@.untracked_repos[i],
                #[trigger] shown[i],
            ) by {
                assert(shown[i] == rows@[i]@);
            }
            assert(is_untracked_line(
                *humanize,
                data@.untracked_repos,
                section_text("untracked"@, shown),
            ));
        }
        sections.push(format_section("untracked", rows));
    }
    if let Some(entries) = &data.git_rewrite {
        let rows = git_rewrite_rows(entries, humanize);
        proof {
            let shown = views(rows@);
            assert forall|i: int| 0 <= i < shown.len() implies is_git_rewrite_row(
                *humanize,
                views(entries@)[i],
                #[trigger] shown[i],
            ) by {
                assert(shown[i] == rows@[i]@);
            }
            assert(is_git_rewrite_line(
                *humanize,
                views(entries@),
                section_text("git_rewrite"@, shown),
            ));
        }
        sections.push(format_section("git_rewrite", rows));
    }
    let r = join_texts(&sections, "\n");
    proof {
        let lines = views(sections@);
        assert(summaries(data.uncommitted@) =~= data@.uncommitted);
        assert(summaries(data.staged@) =~= data@.staged);
        assert(are_report_lines(*humanize, lines, data@));
    }
    r
}

/// Scans as the options say and reports in words: the uncommitted changes,
/// the staged changes and the pushable branches that the scan found.
pub fn generate_report<F: FsOps, G: GitRunner, C: Clock, H: Fn(u64) -> String>(
    opts: &Options,
    fs: &F,
    git: &G,
    clock: &C,
    humanize: &H,
) -> (r: String)
    requires
        forall|secs: u64| call_requires(*humanize, (secs,)),
    ensures
        exists|
            lines: Seq<Seq<char>>,
            data: ReportView,
            roots: Seq<(Seq<char>, Seq<char>)>,
            steps: Seq<ReportView>,
        |
            #![trigger
                are_report_lines(*humanize, lines, data),
                is_collection(*fs, *git, *clock, *opts, roots, steps, data),
            ]
            r@ == joined(lines, "\n"@) && are_report_lines(*humanize, lines, data) && is_collection(
                *fs,
                *git,
                *clock,
                *opts,
                roots,
                steps,
                data,
            ),
{
    let data = collect_report_data(opts, fs, git, clock);
    render_report(&data, humanize)
}

} // verus!
