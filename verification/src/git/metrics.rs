//! How much has changed in a working tree or an index.

use vstd::prelude::*;
use crate::git::runner::{GitOutput, GitRunner};
use crate::order::texts;
use crate::text::{
    chars_of, find, find_char, line_spans, lines, parse_u64, parsed_u64, pieces,
    trim, trim_bounds,
};

verus! {

/// The size of a set of changes.
#[derive(Debug, Clone, Copy, PartialEq, Eq, Structural)]
pub struct ChangeMetrics {
    /// Lines added plus lines deleted, over all changed files.
    pub lines: u64,
    /// Changed files.
    pub files: u64,
    /// Files that the tool does not track.
    pub untracked: u64,
}

/// The first two tab-separated fields of a line, if it has a tab at all.
pub open spec fn numstat_fields(line: Seq<char>) -> Option<(Seq<char>, Seq<char>)> {
    let t = find(line, '\t');
    if 0 <= t < line.len() {
        let rest = line.skip(t + 1);
        Some((line.take(t), rest.take(find(rest, '\t'))))
    } else {
        None
    }
}

/// The number in a field, or zero where the field is no number (the marker
/// that stands there for a binary file).
pub open spec fn field_value(f: Seq<char>) -> nat {
    match parsed_u64(f) {
        Some(n) => n as nat,
        None => 0,
    }
}

/// The lines that one line of a numeric diff summary accounts for.
pub open spec fn line_changes(line: Seq<char>) -> nat {
    match numstat_fields(line) {
        Some((added, deleted)) => field_value(added) + field_value(deleted),
        None => 0,
    }
}

/// Added plus deleted lines, summed over the given summary lines.
pub open spec fn lines_changed(ls: Seq<Seq<char>>) -> nat
    decreases ls.len(),
{
    if ls.len() == 0 {
        0
    } else {
        lines_changed(ls.drop_last()) + line_changes(ls.last())
    }
}

/// The number of summary lines that name a file.
pub open spec fn files_changed(ls: Seq<Seq<char>>) -> nat
    decreases ls.len(),
{
    if ls.len() == 0 {
        0
    } else {
        files_changed(ls.drop_last()) + if numstat_fields(ls.last()) is Some {
            1nat
        } else {
            0nat
        }
    }
}

/// `n`, or the largest 64-bit number where `n` is beyond it.
pub open spec fn saturated(n: nat) -> u64 {
    if n > u64::MAX {
        u64::MAX
    } else {
        n as u64
    }
}

/// The totals of a numeric diff summary: each line reads
/// `<added> TAB <deleted> TAB <path>`.
pub open spec fn numstat_totals(s: Seq<char>) -> (u64, u64) {
    (saturated(lines_changed(lines(s))), saturated(files_changed(lines(s))))
}

/// Sums a numeric diff summary: the lines changed and the files changed.
pub fn parse_numstat(s: &str) -> (r: (u64, u64))
    ensures
        r == numstat_totals(s@),
{
    let v = chars_of(s);
    let spans = line_spans(&v);
    let ghost ls = lines(v@);
    let mut total: u64 = 0;
    let mut files: u64 = 0;
    let mut i: usize = 0;
    assert(ls.take(0) =~= Seq::<Seq<char>>::empty());
    while i < spans.len()
        invariant
            i <= spans.len(),
            ls == pieces(v@, spans@),
            crate::text::spans_within(spans@, v.len() as int),
            total == saturated(lines_changed(ls.take(i as int))),
            files == saturated(files_changed(ls.take(i as int))),
        decreases spans.len() - i,
    {
        let (from, to) = spans[i];
        let ghost line = v@.subrange(from as int, to as int);
        proof {
            assert(ls.take(i + 1).drop_last() =~= ls.take(i as int));
            assert(ls.take(i + 1).last() == line);
            crate::text::lemma_find(line, '\t');
        }
        let t = find_char(&v, from, to, '\t');
        if t < to {
            let ghost rest = line.skip(t - from + 1);
            assert(rest =~= v@.subrange(t + 1, to as int));
            let t2 = find_char(&v, t + 1, to, '\t');
            let added = parse_u64(&v, from, t);
            let deleted = parse_u64(&v, t + 1, t2);
            proof {
                crate::text::lemma_find(rest, '\t');
                assert(line.take(t - from) =~= v@.subrange(from as int, t as int));
                assert(rest.take(t2 - (t + 1)) =~= v@.subrange(t + 1, t2 as int));
            }
            let a: u64 = match added {
                Some(n) => n,
                None => 0,
            };
            let d: u64 = match deleted {
                Some(n) => n,
                None => 0,
            };
            files = files.saturating_add(1);
            total = total.saturating_add(a.saturating_add(d));
        }
        i += 1;
    }
    assert(ls.take(spans.len() as int) =~= ls);
    (total, files)
}

/// One record of a numeric diff summary: the lines added, the lines
/// deleted, and the path of the file, each as it is written.
pub struct SummaryRecord {
    pub added: Seq<char>,
    pub deleted: Seq<char>,
    pub path: Seq<char>,
}

/// Whether a record can stand on a line of its own: its two counts hold
/// neither a tab nor a line feed, and its path holds no line feed.
pub open spec fn is_summary_record(r: SummaryRecord) -> bool {
    &&& forall|i: int| 0 <= i < r.added.len() ==> #[trigger] r.added[i] != '\t' && r.added[i] != '\n'
    &&& forall|i: int|
        0 <= i < r.deleted.len() ==> #[trigger] r.deleted[i] != '\t' && r.deleted[i] != '\n'
    &&& forall|i: int| 0 <= i < r.path.len() ==> #[trigger] r.path[i] != '\n'
}

/// The line that a record is written as.
pub open spec fn summary_line(r: SummaryRecord) -> Seq<char> {
    r.added + seq!['\t'] + r.deleted + seq!['\t'] + r.path
}

/// The text that records are written as, a line for each.
pub open spec fn summary_text(records: Seq<SummaryRecord>) -> Seq<char>
    decreases records.len(),
{
    if records.len() == 0 {
        Seq::empty()
    } else {
        summary_text(records.drop_last()) + summary_line(records.last()) + seq!['\n']
    }
}

/// The lines that the records account for: the sum of their counts, a count
/// that is no number counting for nothing.
pub open spec fn records_changed(records: Seq<SummaryRecord>) -> nat
    decreases records.len(),
{
    if records.len() == 0 {
        0
    } else {
        records_changed(records.drop_last()) + field_value(records.last().added) + field_value(
            records.last().deleted,
        )
    }
}

/// The line of a record is read back as the two counts of the record.
pub proof fn lemma_summary_line_fields(r: SummaryRecord)
    requires
        is_summary_record(r),
    ensures
        crate::text::is_one_line(summary_line(r)),
        numstat_fields(crate::text::without_cr(summary_line(r))) == Some((r.added, r.deleted)),
{
    let line = summary_line(r);
    let read = crate::text::without_cr(line);
    let a = r.added.len() as int;
    let d = r.deleted.len() as int;
    assert forall|i: int| 0 <= i < line.len() implies #[trigger] line[i] != '\n' by {
        if i < a {
            assert(line[i] == r.added[i]);
        } else if i == a {
        } else if i < a + 1 + d {
            assert(line[i] == r.deleted[i - a - 1]);
        } else if i == a + 1 + d {
        } else {
            assert(line[i] == r.path[i - a - d - 2]);
        }
    }
    // at most the last character of the path is taken off
    assert(read.len() >= a + d + 2);
    assert forall|i: int| 0 <= i < read.len() implies read[i] == line[i] by {}
    assert forall|i: int| 0 <= i < a implies read[i] != '\t' by {
        assert(read[i] == r.added[i]);
    }
    assert(read[a] == '\t');
    crate::text::lemma_find_at(read, '\t', a);
    let rest = read.skip(a + 1);
    assert forall|i: int| 0 <= i < d implies rest[i] != '\t' by {
        assert(rest[i] == r.deleted[i]);
    }
    assert(rest[d] == '\t');
    crate::text::lemma_find_at(rest, '\t', d);
    assert(read.take(a) =~= r.added);
    assert(rest.take(d) =~= r.deleted);
}

/// The lines of the text of records are the lines of the records.
pub proof fn lemma_summary_lines(records: Seq<SummaryRecord>)
    requires
        forall|i: int| 0 <= i < records.len() ==> is_summary_record(#[trigger] records[i]),
    ensures
        crate::text::ends_lines(summary_text(records)),
        lines(summary_text(records)).len() == records.len(),
        forall|i: int|
            0 <= i < records.len() ==> #[trigger] lines(summary_text(records))[i]
                == crate::text::without_cr(summary_line(records[i])),
    decreases records.len(),
{
    if records.len() > 0 {
        let init = records.drop_last();
        let last = records.last();
        assert forall|i: int| 0 <= i < init.len() implies is_summary_record(#[trigger] init[i]) by {
            assert(init[i] == records[i]);
        }
        lemma_summary_lines(init);
        assert(records[records.len() - 1] == last);
        lemma_summary_line_fields(last);
        crate::text::lemma_lines_append(summary_text(init), summary_line(last));
        assert forall|i: int| 0 <= i < records.len() implies #[trigger] lines(
            summary_text(records),
        )[i] == crate::text::without_cr(summary_line(records[i])) by {
            if i < init.len() {
                assert(init[i] == records[i]);
                assert(lines(summary_text(records))[i] == lines(summary_text(init))[i]);
            }
        }
    }
}

/// Lines that read as the records count what the records count.
pub proof fn lemma_lines_count_records(ls: Seq<Seq<char>>, records: Seq<SummaryRecord>)
    requires
        ls.len() == records.len(),
        forall|i: int|
            0 <= i < records.len() ==> numstat_fields(#[trigger] ls[i]) == Some(
                (records[i].added, records[i].deleted),
            ),
    ensures
        lines_changed(ls) == records_changed(records),
        files_changed(ls) == records.len(),
    decreases ls.len(),
{
    if ls.len() > 0 {
        let n = ls.len() - 1;
        assert forall|i: int| 0 <= i < n implies numstat_fields(#[trigger] ls.drop_last()[i])
            == Some((records.drop_last()[i].added, records.drop_last()[i].deleted)) by {
            assert(ls.drop_last()[i] == ls[i]);
            assert(records.drop_last()[i] == records[i]);
        }
        lemma_lines_count_records(ls.drop_last(), records.drop_last());
        assert(numstat_fields(ls[n]) == Some((records[n].added, records[n].deleted)));
    }
}

/// A numeric diff summary is summed as its records say: the lines changed
/// are the sum of the two counts of every record, where a count that is no
/// number (the marker of a binary file) counts for nothing, and the files
/// changed are as many as there are records.
pub proof fn lemma_numstat_of_records(records: Seq<SummaryRecord>)
    requires
        forall|i: int| 0 <= i < records.len() ==> is_summary_record(#[trigger] records[i]),
    ensures
        numstat_totals(summary_text(records)) == (
            saturated(records_changed(records)),
            saturated(records.len()),
        ),
{
    lemma_summary_lines(records);
    let ls = lines(summary_text(records));
    assert forall|i: int| 0 <= i < records.len() implies numstat_fields(#[trigger] ls[i]) == Some(
        (records[i].added, records[i].deleted),
    ) by {
        lemma_summary_line_fields(records[i]);
    }
    lemma_lines_count_records(ls, records);
}

/// The number of lines that hold more than white space.
pub open spec fn filled_lines(ls: Seq<Seq<char>>) -> nat
    decreases ls.len(),
{
    if ls.len() == 0 {
        0
    } else {
        filled_lines(ls.drop_last()) + if trim(ls.last()).len() > 0 {
            1nat
        } else {
            0nat
        }
    }
}

/// Counts the lines of `s` that hold more than white space.
pub fn count_lines(s: &str) -> (n: u64)
    ensures
        n == filled_lines(lines(s@)),
{
    let v = chars_of(s);
    let spans = line_spans(&v);
    let ghost ls = lines(v@);
    let mut n: u64 = 0;
    let mut i: usize = 0;
    assert(ls.take(0) =~= Seq::<Seq<char>>::empty());
    while i < spans.len()
        invariant
            i <= spans.len(),
            ls == pieces(v@, spans@),
            crate::text::spans_within(spans@, v.len() as int),
            n == filled_lines(ls.take(i as int)),
            n <= i,
        decreases spans.len() - i,
    {
        let (from, to) = spans[i];
        proof {
            assert(ls.take(i + 1).drop_last() =~= ls.take(i as int));
            assert(ls.take(i + 1).last() == v@.subrange(from as int, to as int));
        }
        let (a, b) = trim_bounds(&v, from, to);
        if a < b {
            n += 1;
        }
        i += 1;
    }
    assert(ls.take(spans.len() as int) =~= ls);
    n
}

/// The text that a run wrote to its standard output, where there was a run.
pub open spec fn stdout_of(out: Option<GitOutput>) -> Option<Seq<char>> {
    match out {
        Some(o) => Some(o.stdout@),
        None => None,
    }
}

/// The metrics that a numeric diff summary and a listing of untracked files
/// amount to. A run that could not be made counts for nothing.
pub open spec fn metrics_of(numstat: Option<Seq<char>>, others: Option<Seq<char>>) -> ChangeMetrics {
    ChangeMetrics {
        lines: match numstat {
            Some(s) => numstat_totals(s).0,
            None => 0,
        },
        files: match numstat {
            Some(s) => numstat_totals(s).1,
            None => 0,
        },
        untracked: match others {
            Some(s) => filled_lines(lines(s)) as u64,
            None => 0,
        },
    }
}

/// Reads the metrics off the two runs' outputs.
pub fn metrics_from_outputs(numstat: &Option<GitOutput>, others: &Option<GitOutput>) -> (m:
    ChangeMetrics)
    ensures
        m == metrics_of(stdout_of(*numstat), stdout_of(*others)),
{
    let mut m = ChangeMetrics { lines: 0, files: 0, untracked: 0 };
    if let Some(out) = numstat {
        let (lines, files) = parse_numstat(out.stdout.as_str());
        m.lines = lines;
        m.files = files;
    }
    if let Some(out) = others {
        m.untracked = count_lines(out.stdout.as_str());
    }
    m
}

/// The arguments of a numeric diff summary: of the index where `staged`, of
/// the working tree otherwise.
pub open spec fn numstat_args(staged: bool) -> Seq<Seq<char>> {
    if staged {
        seq!["diff"@, "--cached"@, "--numstat"@, "--ignore-submodules"@, "--"@, "."@]
    } else {
        seq!["diff"@, "--numstat"@, "--ignore-submodules"@, "--"@, "."@]
    }
}

/// The arguments of a listing of the files that are not tracked.
pub open spec fn others_args() -> Seq<Seq<char>> {
    seq!["ls-files"@, "--others"@, "--exclude-standard"@]
}

/// The arguments of a quiet diff: of the index where `staged`, of the
/// working tree otherwise.
pub open spec fn quiet_diff_args(staged: bool) -> Seq<Seq<char>> {
    if staged {
        seq!["diff"@, "--cached"@, "--quiet"@, "--ignore-submodules"@, "--"@, "."@]
    } else {
        seq!["diff"@, "--quiet"@, "--ignore-submodules"@, "--"@, "."@]
    }
}

/// Whether `m` are the metrics that two runs in `repo` amount to: a numeric
/// diff summary, and a listing of untracked files where one was asked for.
pub open spec fn metrics_answered<G: GitRunner>(
    git: G,
    repo: Seq<char>,
    staged: bool,
    include_untracked: bool,
    numstat: Option<GitOutput>,
    others: Option<GitOutput>,
    m: ChangeMetrics,
) -> bool {
    &&& git.may_answer(repo, numstat_args(staged), numstat)
    &&& if include_untracked {
        git.may_answer(repo, others_args(), others)
    } else {
        others is None
    }
    &&& m == metrics_of(stdout_of(numstat), stdout_of(others))
}

/// The size of the changes in the working tree of `repo`. Untracked files are
/// listed, and counted, only when `include_untracked` is set.
pub fn uncommitted_metrics<G: GitRunner>(repo: &str, include_untracked: bool, git: &G) -> (m:
    ChangeMetrics)
    ensures
        exists|numstat: Option<GitOutput>, others: Option<GitOutput>| #[trigger]
            metrics_answered(*git, repo@, false, include_untracked, numstat, others, m),
{
    let args = ["diff", "--numstat", "--ignore-submodules", "--", "."];
    assert(texts(args@) =~= numstat_args(false));
    let numstat = git.run_git(repo, &args);
    let others = if include_untracked {
        let args = ["ls-files", "--others", "--exclude-standard"];
        assert(texts(args@) =~= others_args());
        git.run_git(repo, &args)
    } else {
        None
    };
    let m = metrics_from_outputs(&numstat, &others);
    assert(metrics_answered(*git, repo@, false, include_untracked, numstat, others, m));
    m
}

/// The size of the changes in the index of `repo`, with the untracked files
/// of its working tree.
pub fn staged_metrics<G: GitRunner>(repo: &str, git: &G) -> (m: ChangeMetrics)
    ensures
        exists|numstat: Option<GitOutput>, others: Option<GitOutput>| #[trigger]
            metrics_answered(*git, repo@, true, true, numstat, others, m),
{
    let args = ["diff", "--cached", "--numstat", "--ignore-submodules", "--", "."];
    assert(texts(args@) =~= numstat_args(true));
    let numstat = git.run_git(repo, &args);
    let args = ["ls-files", "--others", "--exclude-standard"];
    assert(texts(args@) =~= others_args());
    let others = git.run_git(repo, &args);
    let m = metrics_from_outputs(&numstat, &others);
    assert(metrics_answered(*git, repo@, true, true, numstat, others, m));
    m
}

/// What the quiet diff and the listing of untracked files say together: the
/// tree is dirty when the diff ran and failed, or ran clean while the listing
/// names a file. No diff, no signal.
pub open spec fn dirty_of(diff: Option<GitOutput>, others: Option<GitOutput>) -> bool {
    match diff {
        None => false,
        Some(d) => !d.success || match others {
            Some(o) => trim(o.stdout@).len() > 0,
            None => false,
        },
    }
}

/// Whether `s` holds more than white space.
pub fn has_text(s: &str) -> (r: bool)
    ensures
        r == (trim(s@).len() > 0),
{
    let v = chars_of(s);
    let (a, b) = trim_bounds(&v, 0, v.len());
    assert(v@.subrange(0, v.len() as int) =~= v@);
    a < b
}

/// Decides `dirty_of`.
pub fn dirty_from_outputs(diff: &Option<GitOutput>, others: &Option<GitOutput>) -> (r: bool)
    ensures
        r == dirty_of(*diff, *others),
{
    match diff {
        None => false,
        Some(d) => {
            if !d.success {
                true
            } else {
                match others {
                    Some(o) => has_text(o.stdout.as_str()),
                    None => false,
                }
            }
        },
    }
}

/// Whether `r` is what two runs in `repo` say of the working tree: a quiet
/// diff, and a listing of untracked files, which is made only after a clean
/// diff and only where untracked files count.
pub open spec fn dirty_answered<G: GitRunner>(
    git: G,
    repo: Seq<char>,
    include_untracked: bool,
    diff: Option<GitOutput>,
    others: Option<GitOutput>,
    r: bool,
) -> bool {
    &&& git.may_answer(repo, quiet_diff_args(false), diff)
    &&& if include_untracked && succeeded_run(diff) {
        git.may_answer(repo, others_args(), others)
    } else {
        others is None
    }
    &&& r == dirty_of(diff, others)
}

/// Whether a run was made and ended in success.
pub open spec fn succeeded_run(out: Option<GitOutput>) -> bool {
    match out {
        Some(o) => o.success,
        None => false,
    }
}

/// Whether the working tree of `repo` differs from its index, or, with
/// `include_untracked`, holds files that are not tracked. The listing is run
/// only after a clean diff.
pub fn has_uncommitted<G: GitRunner>(repo: &str, include_untracked: bool, git: &G) -> (r: bool)
    ensures
        exists|diff: Option<GitOutput>, others: Option<GitOutput>| #[trigger]
            dirty_answered(*git, repo@, include_untracked, diff, others, r),
{
    let args = ["diff", "--quiet", "--ignore-submodules", "--", "."];
    assert(texts(args@) =~= quiet_diff_args(false));
    let diff = git.run_git(repo, &args);
    let clean = match &diff {
        Some(d) => d.success,
        None => false,
    };
    let others = if clean && include_untracked {
        let args = ["ls-files", "--others", "--exclude-standard"];
        assert(texts(args@) =~= others_args());
        git.run_git(repo, &args)
    } else {
        None
    };
    let r = dirty_from_outputs(&diff, &others);
    assert(dirty_answered(*git, repo@, include_untracked, diff, others, r));
    r
}

/// Whether a quiet diff of the index says that something is staged: it ran
/// and failed.
pub open spec fn staged_of(diff: Option<GitOutput>) -> bool {
    match diff {
        Some(d) => !d.success,
        None => false,
    }
}

/// Decides `staged_of`.
pub fn staged_from_output(diff: &Option<GitOutput>) -> (r: bool)
    ensures
        r == staged_of(*diff),
{
    match diff {
        Some(d) => !d.success,
        None => false,
    }
}

/// Whether the index of `repo` differs from its last commit.
pub fn has_staged<G: GitRunner>(repo: &str, git: &G) -> (r: bool)
    ensures
        exists|diff: Option<GitOutput>| #[trigger]
            git.may_answer(repo@, quiet_diff_args(true), diff) && r == staged_of(diff),
{
    let args = ["diff", "--cached", "--quiet", "--ignore-submodules", "--", "."];
    assert(texts(args@) =~= quiet_diff_args(true));
    let diff = git.run_git(repo, &args);
    staged_from_output(&diff)
}

} // verus!
