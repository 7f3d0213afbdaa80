use uncommitted::output::json::{json_escape, to_json};
use uncommitted::output::tab::git_rewrite::render;
use uncommitted::output::tab::{apply_omit_filter, format_tab, TabStyle};
use uncommitted::report::format::render_report;
use uncommitted::{
    GitRewriteEntry, PushableEntry, ReportData, StagedEntry, UncommittedEntry, UntrackedReason,
    UntrackedRepoEntry,
};

fn humanize(secs: u64) -> String {
    if secs < 3600 {
        format!("{:.1} min", secs as f64 / 60.0)
    } else if secs < 86_400 {
        format!("{:.1} hr", secs as f64 / 3600.0)
    } else {
        format!("{:.1} days", secs as f64 / 86_400.0)
    }
}

fn pushable_entry(repo: &str, revs: u64) -> PushableEntry {
    PushableEntry {
        repo: repo.to_string(),
        branch: "main".to_string(),
        revs,
        earliest_secs: None,
        latest_secs: None,
        root_display: "~/src".to_string(),
        root_full: "/tmp/src".to_string(),
    }
}

#[test]
fn render_appends_branch_names_to_source_and_target() {
    let entry = GitRewriteEntry {
        source_repo: "source_dir".to_string(),
        source_branch: "feature".to_string(),
        source_path: "/tmp/source_dir".to_string(),
        target_repo: "target_dir".to_string(),
        target_branch: "main".to_string(),
        target_path: "/tmp/target_dir".to_string(),
        commits: 0,
        earliest_secs: None,
        latest_secs: None,
    };

    let mut data = ReportData::default();
    data.git_rewrite = Some(vec![entry]);

    let output = render(&data, TabStyle::Empty, &humanize);

    assert!(output.contains("source_dir:feature"));
    assert!(output.contains("target_dir:main"));
}

#[test]
fn format_tab_omits_zero_revs_and_commits_when_requested() {
    let mut data = ReportData::default();
    data.pushable = vec![pushable_entry("pushable-keep", 2), pushable_entry("pushable-drop", 0)];
    data.git_rewrite = Some(vec![
        GitRewriteEntry {
            source_repo: "rewrite-drop-src".to_string(),
            source_branch: "main".to_string(),
            source_path: "/tmp/src1".to_string(),
            target_repo: "rewrite-drop-target".to_string(),
            target_branch: "main".to_string(),
            target_path: "/tmp/dst1".to_string(),
            commits: 0,
            earliest_secs: None,
            latest_secs: None,
        },
        GitRewriteEntry {
            source_repo: "rewrite-keep-src".to_string(),
            source_branch: "dev".to_string(),
            source_path: "/tmp/src2".to_string(),
            target_repo: "rewrite-keep-target".to_string(),
            target_branch: "main".to_string(),
            target_path: "/tmp/dst2".to_string(),
            commits: 1,
            earliest_secs: None,
            latest_secs: None,
        },
    ]);

    let output = format_tab(&data, TabStyle::Empty, true, &humanize);

    assert!(output.contains("pushable-keep"));
    assert!(!output.contains("pushable-drop"));
    assert!(output.contains("rewrite-keep-src:dev"));
    assert!(!output.contains("rewrite-drop-src:main"));
}

fn other_repos() -> ReportData {
    let mut data = ReportData::default();
    data.untracked_enabled = true;
    data.untracked_repos = vec![
        UntrackedRepoEntry {
            repo: "ignored-repo".to_string(),
            branch: "main".to_string(),
            root_display: "~/src".to_string(),
            root_full: "/tmp/src".to_string(),
            revs: Some(5),
            earliest_secs: None,
            latest_secs: None,
            reason: UntrackedReason::Ignored,
        },
        UntrackedRepoEntry {
            repo: "missing-repo".to_string(),
            branch: "dev".to_string(),
            root_display: "~/src".to_string(),
            root_full: "/tmp/src".to_string(),
            revs: Some(0),
            earliest_secs: None,
            latest_secs: None,
            reason: UntrackedReason::MissingConfig,
        },
        UntrackedRepoEntry {
            repo: "/tmp/missing".to_string(),
            branch: "main".to_string(),
            root_display: "/tmp/missing".to_string(),
            root_full: "/tmp/missing".to_string(),
            revs: None,
            earliest_secs: None,
            latest_secs: None,
            reason: UntrackedReason::MissingRepo,
        },
    ];
    data
}

#[test]
fn format_tab_renders_other_repos_only_when_not_omitting() {
    let data = other_repos();

    let omitted = format_tab(&data, TabStyle::Empty, true, &humanize);
    assert!(!omitted.contains("Other Repos"));
    assert!(!omitted.contains("ignored-repo:main"));

    let rendered = format_tab(&data, TabStyle::Empty, false, &humanize);
    assert!(rendered.contains("ignored-repo:main"));
    assert!(rendered.contains("missing-repo:dev"));
    assert!(rendered.contains("ignored"));
    assert!(rendered.contains("untracked"));
    assert!(rendered.contains("missing"));
}

#[test]
fn omit_filter_keeps_what_may_need_action() {
    let mut data = other_repos();
    data.pushable = vec![pushable_entry("keep", 1), pushable_entry("drop", 0)];
    let filtered = apply_omit_filter(&data);
    assert_eq!(filtered.pushable.len(), 1);
    assert_eq!(filtered.pushable[0].repo, "keep");
    // a count of zero is dropped, an unknown count is kept
    assert_eq!(filtered.untracked_repos.len(), 2);
    assert_eq!(filtered.untracked_repos[0].repo, "ignored-repo");
    assert_eq!(filtered.untracked_repos[1].repo, "/tmp/missing");
    assert!(filtered.untracked_enabled);
    assert!(filtered.git_rewrite.is_none());
}

fn scan_data() -> ReportData {
    let mut data = ReportData::default();
    data.uncommitted = vec![UncommittedEntry {
        repo: "a".to_string(),
        branch: "main".to_string(),
        lines: 75,
        files: 3,
        untracked: 1,
        root_display: "~/src".to_string(),
        root_full: "/home/u/src".to_string(),
    }];
    data.staged = vec![StagedEntry {
        repo: "b".to_string(),
        branch: "main".to_string(),
        lines: 80,
        files: 2,
        untracked: 0,
        root_display: "~/src".to_string(),
        root_full: "/home/u/src".to_string(),
    }];
    data.pushable = vec![PushableEntry {
        repo: "c".to_string(),
        branch: "main".to_string(),
        revs: 7,
        earliest_secs: Some(120_960),
        latest_secs: Some(4_080),
        root_display: "~/src".to_string(),
        root_full: "/home/u/src".to_string(),
    }];
    data
}

#[test]
fn format_tab_draws_the_three_scan_tables() {
    let report = format_tab(&scan_data(), TabStyle::Ascii, false, &humanize);
    let expected = [
        "+ Uncommitted Changes --+-------+-----------+\n",
        "| Repo | Branch | Lines | Files | Untracked |\n",
        "+------+--------+-------+-------+-----------+\n",
        "| a    | main   |    75 |     3 |         1 |\n",
        "+------+--------+-------+-------+-----------+\n",
        "+ Staged Changes -------+-------+-----------+\n",
        "| Repo | Branch | Lines | Files | Untracked |\n",
        "+------+--------+-------+-------+-----------+\n",
        "| b    | main   |    80 |     2 |         0 |\n",
        "+------+--------+-------+-------+-----------+\n",
        "+ Pushable Commits -------+----------+--------+\n",
        "| Repo | Branch | Commits | Earliest | Latest |\n",
        "+------+--------+---------+----------+--------+\n",
        "| c    | main   |       7 | 1.4 days | 1.1 hr |\n",
        "+------+--------+---------+----------+--------+",
    ]
    .concat();
    assert_eq!(report, expected);
}

#[test]
fn format_tab_draws_none_for_an_empty_table() {
    let report = format_tab(&ReportData::default(), TabStyle::Ascii, false, &humanize);
    assert!(report.contains("(none)"));
    assert!(report.contains(" Uncommitted Changes "));
    assert!(report.contains(" Staged Changes "));
    assert!(report.contains(" Pushable Commits "));
}

#[test]
fn report_in_words_lists_each_section() {
    let report = render_report(&scan_data(), &humanize);
    assert_eq!(
        report,
        "uncommitted: a (75 lines, 3 files, 1 untracked)\n\
         staged: b (80 lines, 2 files, 0 untracked)\n\
         pushable: c (7 revs, earliest: 1.4 days ago, latest: 1.1 hr ago)"
    );
}

#[test]
fn json_escape_writes_control_characters_by_code() {
    assert_eq!(json_escape("a\"b\\c\nd\re\tf"), "a\\\"b\\\\c\\nd\\re\\tf");
    assert_eq!(json_escape("\u{1}\u{1f}\u{7f}\u{9f}"), "\\u0001\\u001f\\u007f\\u009f");
    assert_eq!(json_escape("plain é ✓"), "plain é ✓");
}

#[test]
fn to_json_writes_every_member() {
    let json = to_json(&scan_data());
    assert_eq!(
        json,
        "{\"uncommitted\": [{\"repo\":\"a\", \"branch\":\"main\", \"lines\":75, \"files\":3, \
         \"untracked\":1, \"root\":\"/home/u/src\"}], \"staged\": [{\"repo\":\"b\", \
         \"branch\":\"main\", \"lines\":80, \"files\":2, \"untracked\":0, \
         \"root\":\"/home/u/src\"}], \"pushable\": [{\"repo\":\"c\", \"branch\":\"main\", \
         \"revs\":7, \"earliest_secs\":120960, \"latest_secs\":4080, \
         \"root\":\"/home/u/src\"}], \"untracked_repos\": null, \"git_rewrite\": null}"
    );
}

#[test]
fn to_json_writes_the_audit_and_the_other_repos() {
    let mut data = other_repos();
    data.git_rewrite = Some(Vec::new());
    let json = to_json(&data);
    assert!(json.contains("\"git_rewrite\": []"));
    assert!(json.contains(
        "{\"repo\":\"/tmp/missing\", \"branch\":\"main\", \"root\":\"/tmp/missing\", \
         \"root_display\":\"/tmp/missing\", \"revs\":null, \"earliest_secs\":null, \
         \"latest_secs\":null, \"reason\":\"missing_repo\"}"
    ));
    assert!(json.contains("\"reason\":\"ignored\""));
    assert!(json.contains("\"reason\":\"missing_config\""));
}
