use uncommitted::git_rewrite::config::{
    build_other_repos_summary, build_pairs, build_pairs_with_paths, ignore_flag_value,
    match_key_to_string, Endpoint, GitRewriteConfig, IgnoreFlag, MatchKey, RepoPair, RepoSpec,
    RepoType,
};
use uncommitted::git_rewrite::executor::collect_entries;
use uncommitted::git_rewrite::time::{
    compute_bounds, diff_seconds, parse_local_datetime, resolve_local, LocalMoment,
};
use uncommitted::git_rewrite::worker::{
    audit_arguments, display_name_from, is_nothing_to_do, preferred_timestamp,
    record_from_fields, repo_display_name, run_pair, summarize_records, AuditOutcome,
    AuditRecord, JsonField,
};
use uncommitted::{GitRewriteEntry, GitRewriteError};

fn spec(path: &str, branch: &str, key: &str, repo_type: RepoType, ignore: bool) -> RepoSpec {
    RepoSpec {
        repository_path: path.to_string(),
        repository_branch: branch.to_string(),
        match_key: key.to_string(),
        repo_type,
        ignore,
    }
}

fn pair(key: &str, source: &str, target: &str) -> RepoPair {
    RepoPair {
        key: key.to_string(),
        source: Endpoint { path: source.to_string(), branch: "main".to_string() },
        target: Endpoint { path: target.to_string(), branch: "dev".to_string() },
    }
}

fn exited(stdout: &str) -> AuditOutcome {
    AuditOutcome::Exited {
        success: true,
        status: "exit status: 0".to_string(),
        stdout: stdout.as_bytes().to_vec(),
        stderr: String::new(),
    }
}

fn invalid_message(err: GitRewriteError) -> String {
    match err {
        GitRewriteError::InvalidConfig { message } => message,
        other => panic!("unexpected error: {other:?}"),
    }
}

#[test]
fn tests_collect_entries_counts_unique_commits() {
    let pair = pair("1", "/tmp/work/source_repo", "/tmp/work/target_repo");
    let payload = "[\n  { \"commit_hash\": \"abc\", \"dt\": \"01/02/24 08:00 AM\", \"original_commit_dt\": \"01/01/24 01:00 PM\" },\n  { \"commit_hash\": \"def\", \"dt\": \"01/01/24 04:00 AM\", \"original_commit_dt\": \"01/02/24 01:30 PM\" },\n  { \"commit_hash\": \"abc\", \"dt\": \"01/02/24 08:00 AM\", \"original_commit_dt\": \"01/02/24 01:30 PM\" }\n]\n";
    let now_dt = parse_local_datetime("test", "01/03/24 01:30 PM").expect("now parse");

    let entries = collect_entries(vec![run_pair(&pair, exited(payload), now_dt)]).expect("entries");

    assert_eq!(entries.len(), 1);
    let entry = &entries[0];
    assert_eq!(entry.source_repo, "source_repo");
    assert_eq!(entry.source_branch, "main");
    assert_eq!(entry.target_repo, "target_repo");
    assert_eq!(entry.target_branch, "dev");
    assert_eq!(entry.commits, 2);

    let earliest =
        diff_seconds(now_dt, parse_local_datetime("test", "01/01/24 01:00 PM").unwrap());
    let latest = diff_seconds(now_dt, parse_local_datetime("test", "01/02/24 01:30 PM").unwrap());
    assert_eq!(entry.earliest_secs, Some(earliest));
    assert_eq!(entry.latest_secs, Some(latest));
}

#[test]
fn collect_entries_handles_nothing_to_do_message() {
    let pair = pair("1", "/tmp/work/source_repo", "/tmp/work/target_repo");
    let now_dt = parse_local_datetime("test", "01/03/24 01:30 PM").expect("now parse");
    let outcome = exited("{\n  \"msg\": \"nothing to do\"\n}\n");

    let entries = collect_entries(vec![run_pair(&pair, outcome, now_dt)]).expect("entries");

    assert_eq!(entries.len(), 1);
    let entry = &entries[0];
    assert_eq!(entry.commits, 0);
    assert!(entry.earliest_secs.is_none());
    assert!(entry.latest_secs.is_none());
}

#[test]
fn collect_entries_skips_pairs_marked_ignore() {
    let config = GitRewriteConfig {
        repos: vec![
            spec("/tmp/work/source_repo", "main", "42", RepoType::Source, ignore_flag_value(IgnoreFlag::Number(1))),
            spec("/tmp/work/target_repo", "dev", "42", RepoType::Target, false),
        ],
    };
    let pairs = build_pairs(&config).expect("pairs");
    assert!(pairs.is_empty());
    let entries = collect_entries(Vec::new()).expect("entries");
    assert!(entries.is_empty());
}

#[test]
fn tests_match_key_accepts_integer() {
    let table: toml::Table = "value = 7".parse().expect("parse");
    let key = match table.get("value") {
        Some(toml::Value::Integer(i)) => MatchKey::Number(*i),
        Some(toml::Value::String(s)) => MatchKey::Text(s.clone()),
        other => panic!("unexpected value: {other:?}"),
    };
    assert_eq!(match_key_to_string(&key), "7");
}

#[test]
fn match_key_is_brought_to_text() {
    assert_eq!(match_key_to_string(&MatchKey::Text("alpha".to_string())), "alpha");
    assert_eq!(match_key_to_string(&MatchKey::Number(0)), "0");
    assert_eq!(match_key_to_string(&MatchKey::Number(-12)), "-12");
    assert_eq!(match_key_to_string(&MatchKey::Number(i64::MIN)), "-9223372036854775808");
    assert_eq!(match_key_to_string(&MatchKey::Number(i64::MAX)), "9223372036854775807");
}

#[test]
fn ignore_flag_takes_truth_values_and_one() {
    assert!(!ignore_flag_value(IgnoreFlag::Absent));
    assert!(ignore_flag_value(IgnoreFlag::Flag(true)));
    assert!(!ignore_flag_value(IgnoreFlag::Flag(false)));
    assert!(ignore_flag_value(IgnoreFlag::Number(1)));
    assert!(!ignore_flag_value(IgnoreFlag::Number(0)));
    assert!(!ignore_flag_value(IgnoreFlag::Number(2)));
}

#[test]
fn pairing_sorts_pairs_by_key() {
    let config = GitRewriteConfig {
        repos: vec![
            spec("/r/t2", "main", "beta", RepoType::Target, false),
            spec("/r/s1", "main", "alpha", RepoType::Source, false),
            spec("/r/s2", "dev", "beta", RepoType::Source, false),
            spec("/r/t1", "main", "alpha", RepoType::Target, false),
        ],
    };
    let out = build_pairs_with_paths(&config).expect("pairs");
    assert_eq!(out.pairs.len(), 2);
    assert_eq!(out.pairs[0].key, "alpha");
    assert_eq!(out.pairs[0].source.path, "/r/s1");
    assert_eq!(out.pairs[0].target.path, "/r/t1");
    assert_eq!(out.pairs[1].key, "beta");
    assert_eq!(out.pairs[1].source.path, "/r/s2");
    assert_eq!(out.pairs[1].source.branch, "dev");
    assert_eq!(out.pairs[1].target.path, "/r/t2");
    assert_eq!(out.tracked_paths, vec!["/r/s2", "/r/t2", "/r/s1", "/r/t1"]);
    assert!(out.ignored_paths.is_empty());
}

#[test]
fn pairing_rejects_a_second_source() {
    let config = GitRewriteConfig {
        repos: vec![
            spec("/r/a", "main", "k", RepoType::Source, false),
            spec("/r/b", "main", "k", RepoType::Source, false),
            spec("/r/c", "main", "k", RepoType::Target, false),
        ],
    };
    let message = invalid_message(build_pairs(&config).unwrap_err());
    assert_eq!(message, "multiple source repos defined for match-key k");
}

#[test]
fn pairing_rejects_a_second_target() {
    let config = GitRewriteConfig {
        repos: vec![
            spec("/r/a", "main", "k", RepoType::Target, false),
            spec("/r/b", "main", "k", RepoType::Target, false),
        ],
    };
    let message = invalid_message(build_pairs(&config).unwrap_err());
    assert_eq!(message, "multiple target repos defined for match-key k");
}

#[test]
fn pairing_rejects_a_key_with_one_role() {
    let config = GitRewriteConfig {
        repos: vec![
            spec("/r/a", "main", "1", RepoType::Source, false),
            spec("/r/b", "main", "1", RepoType::Target, false),
            spec("/r/c", "main", "2", RepoType::Target, false),
        ],
    };
    let message = invalid_message(build_pairs(&config).unwrap_err());
    assert_eq!(message, "match-key 2 must define both source and target repos");
}

#[test]
fn pairing_sets_ignored_groups_aside() {
    let config = GitRewriteConfig {
        repos: vec![
            spec("/r/a", "main", "1", RepoType::Source, false),
            spec("/r/x", "main", "2", RepoType::Source, false),
            spec("/r/y", "main", "2", RepoType::Source, true),
            spec("/r/b", "main", "1", RepoType::Target, false),
        ],
    };
    let out = build_pairs_with_paths(&config).expect("pairs");
    assert_eq!(out.pairs.len(), 1);
    assert_eq!(out.pairs[0].key, "1");
    assert_eq!(out.tracked_paths, vec!["/r/a", "/r/b"]);
    assert_eq!(out.ignored_paths, vec!["/r/x", "/r/y"]);
    let summary = build_other_repos_summary(&config).expect("summary");
    assert_eq!(summary.tracked_endpoints.len(), 2);
    assert_eq!(summary.tracked_endpoints[0].path, "/r/a");
    assert_eq!(summary.tracked_endpoints[1].path, "/r/b");
    assert_eq!(summary.ignored_paths, vec!["/r/x", "/r/y"]);
}

#[test]
fn audit_arguments_name_both_endpoints() {
    let args = audit_arguments(&pair("1", "/s", "/t"));
    assert_eq!(
        args,
        vec![
            "--source-repository-path",
            "/s",
            "--source-repository-branch",
            "main",
            "--target-repo",
            "/t",
            "--target-repo-branch",
            "dev",
            "--commit-from",
            "NEXT",
            "--commit-to",
            "HEAD",
            "--mode",
            "print",
            "--output-format",
            "json",
        ]
    );
}

#[test]
fn run_pair_reports_a_failed_run() {
    let outcome = AuditOutcome::Exited {
        success: false,
        status: "exit status: 3".to_string(),
        stdout: b"[]".to_vec(),
        stderr: "  boom\n".to_string(),
    };
    let err = run_pair(&pair("k9", "/s", "/t"), outcome, 0).unwrap_err();
    match &err {
        GitRewriteError::CommandFailure { match_key, status, stderr } => {
            assert_eq!(match_key, "k9");
            assert_eq!(status, "exit status: 3");
            assert_eq!(stderr, "boom");
        }
        other => panic!("unexpected error: {other:?}"),
    }
    assert_eq!(
        err.message(),
        "git_rewrite invocation for match-key k9 failed with status exit status: 3: boom"
    );
}

#[test]
fn run_pair_reports_a_run_that_did_not_start() {
    let outcome = AuditOutcome::NotStarted { reason: "No such file".to_string() };
    let err = run_pair(&pair("k", "/s", "/t"), outcome, 0).unwrap_err();
    assert_eq!(err.message(), "failed to launch git_rewrite binary: No such file");
}

#[test]
fn run_pair_rejects_what_is_no_json() {
    let err = run_pair(&pair("k", "/s", "/t"), exited("not json"), 0).unwrap_err();
    assert!(matches!(&err, GitRewriteError::Json { match_key, .. } if match_key == "k"));
    assert!(err.message().starts_with("failed to parse git_rewrite output for match-key k: "));
}

#[test]
fn run_pair_rejects_an_unexpected_shape() {
    let err = run_pair(&pair("k", "/s", "/t"), exited("17"), 0).unwrap_err();
    assert!(matches!(&err, GitRewriteError::UnexpectedJson { .. }));
    assert_eq!(err.message(), "unexpected git_rewrite payload for match-key k: 17");
    let err = run_pair(&pair("k", "/s", "/t"), exited("{\"msg\":\"busy\"}"), 0).unwrap_err();
    assert_eq!(err.message(), "unexpected git_rewrite payload for match-key k: {\"msg\":\"busy\"}");
}

#[test]
fn run_pair_accepts_nothing_to_do_in_any_case() {
    let entry = run_pair(&pair("k", "/s", "/t"), exited("{\"msg\":\"Nothing To Do\"}"), 5)
        .expect("entry");
    assert_eq!(entry.commits, 0);
    assert_eq!(entry.earliest_secs, None);
    assert_eq!(entry.latest_secs, None);
}

#[test]
fn run_pair_rejects_an_unreadable_timestamp() {
    let err = run_pair(&pair("k", "/s", "/t"), exited("[{\"dt\":\"yesterday\"}]"), 0).unwrap_err();
    match &err {
        GitRewriteError::DateParse { match_key, value, .. } => {
            assert_eq!(match_key, "k");
            assert_eq!(value, "yesterday");
        }
        other => panic!("unexpected error: {other:?}"),
    }
    assert!(err.message().starts_with("failed to parse git_rewrite dt 'yesterday' for match-key k: "));
}

#[test]
fn run_pair_counts_records_without_a_hash_by_their_content() {
    let payload = "[{\"note\":\"x\"}, {\"note\":\"x\"}, {\"note\":\"y\"}, {\"commit_hash\":\"\"}]";
    let entry = run_pair(&pair("k", "/s", "/t"), exited(payload), 0).expect("entry");
    assert_eq!(entry.commits, 3);
    assert_eq!(entry.earliest_secs, None);
}

#[test]
fn run_pair_prefers_the_original_timestamp() {
    let now = parse_local_datetime("t", "01/03/24 01:30 PM").unwrap();
    let original = parse_local_datetime("t", "01/01/24 01:00 PM").unwrap();
    let payload = "[{\"commit_hash\":\"a\",\"dt\":\"01/02/24 08:00 AM\",\"original_commit_dt\":\"01/01/24 01:00 PM\"}, {\"commit_hash\":\"b\"}]";
    let entry = run_pair(&pair("k", "/s", "/t"), exited(payload), now).expect("entry");
    assert_eq!(entry.commits, 2);
    assert_eq!(entry.earliest_secs, Some(diff_seconds(now, original)));
    assert_eq!(entry.latest_secs, Some(diff_seconds(now, original)));
}

#[test]
fn preferred_timestamp_looks_at_the_original_first() {
    let text = |s: &str| JsonField::Text(s.to_string());
    assert_eq!(preferred_timestamp(text("o"), text("g")), Some("o".to_string()));
    assert_eq!(preferred_timestamp(JsonField::Absent, text("g")), Some("g".to_string()));
    assert_eq!(preferred_timestamp(JsonField::Other, text("g")), None);
    assert_eq!(preferred_timestamp(text("  "), text("g")), None);
    assert_eq!(preferred_timestamp(JsonField::Absent, JsonField::Absent), None);
}

#[test]
fn record_identity_is_the_hash_or_the_written_form() {
    let record = record_from_fields(
        JsonField::Text("abc".to_string()),
        "{..}".to_string(),
        JsonField::Absent,
        JsonField::Absent,
    );
    assert_eq!(record.identity, "abc");
    let record = record_from_fields(
        JsonField::Text(String::new()),
        "{..}".to_string(),
        JsonField::Absent,
        JsonField::Absent,
    );
    assert_eq!(record.identity, "{..}");
    let record = record_from_fields(
        JsonField::Other,
        "{..}".to_string(),
        JsonField::Absent,
        JsonField::Absent,
    );
    assert_eq!(record.identity, "{..}");
}

#[test]
fn summarize_records_counts_each_identity_once() {
    let record = |id: &str| AuditRecord { identity: id.to_string(), timestamp: None };
    let records = vec![record("abc"), record("def"), record("abc")];
    let (commits, moments) = summarize_records(&records, "k").expect("summary");
    assert_eq!(commits, 2);
    assert!(moments.is_empty());
}

#[test]
fn nothing_to_do_is_told_by_the_message_alone() {
    assert!(is_nothing_to_do(&JsonField::Text("NOTHING to do".to_string())));
    assert!(!is_nothing_to_do(&JsonField::Text("nothing to do.".to_string())));
    assert!(!is_nothing_to_do(&JsonField::Other));
    assert!(!is_nothing_to_do(&JsonField::Absent));
}

#[test]
fn display_name_falls_back_to_the_path() {
    assert_eq!(repo_display_name("/tmp/work/source_repo"), "source_repo");
    assert_eq!(repo_display_name("/"), "/");
    assert_eq!(display_name_from(Some(String::new()), "/x"), "/x");
    assert_eq!(display_name_from(Some("n".to_string()), "/x"), "n");
    assert_eq!(display_name_from(None, "/x/.."), "/x/..");
}

#[test]
fn resolve_local_takes_the_earlier_of_two() {
    assert_eq!(resolve_local("k", "v", LocalMoment::Single(5)).unwrap(), 5);
    assert_eq!(resolve_local("k", "v", LocalMoment::Ambiguous(5, 9)).unwrap(), 5);
    let err = resolve_local("k", "v", LocalMoment::Missing).unwrap_err();
    assert_eq!(err.message(), "git_rewrite dt 'v' for match-key k did not map to a local timestamp");
}

#[test]
fn bounds_are_ages_of_the_earliest_and_the_latest() {
    assert_eq!(compute_bounds(&Vec::new(), 100), (None, None));
    assert_eq!(compute_bounds(&vec![40, 10, 70], 100), (Some(90), Some(30)));
    assert_eq!(compute_bounds(&vec![150], 100), (Some(0), Some(0)));
    assert_eq!(diff_seconds(i64::MAX, i64::MIN), u64::MAX);
    assert_eq!(diff_seconds(-5, -9), 4);
}

fn finding(source: &str, target: &str, commits: u64) -> GitRewriteEntry {
    GitRewriteEntry {
        source_repo: source.to_string(),
        source_branch: "main".to_string(),
        source_path: format!("/s/{source}"),
        target_repo: target.to_string(),
        target_branch: "main".to_string(),
        target_path: format!("/t/{target}"),
        commits,
        earliest_secs: None,
        latest_secs: None,
    }
}

#[test]
fn collect_entries_returns_the_first_failure_and_no_finding() {
    let failed = run_pair(
        &pair("A", "/s/a", "/t/a"),
        AuditOutcome::Exited {
            success: false,
            status: "exit status: 1".to_string(),
            stdout: Vec::new(),
            stderr: String::new(),
        },
        0,
    );
    let fine = run_pair(&pair("B", "/s/b", "/t/b"), exited("[]"), 0);
    assert!(fine.is_ok());
    let err = collect_entries(vec![fine, failed, Err(GitRewriteError::CommandIo { source: "later".to_string() })])
        .unwrap_err();
    assert_eq!(err.message(), "git_rewrite invocation for match-key A failed with status exit status: 1");
}

#[test]
fn collect_entries_orders_findings_whatever_order_they_came_in() {
    let one = collect_entries(vec![
        Ok(finding("b", "x", 1)),
        Ok(finding("a", "z", 2)),
        Ok(finding("a", "y", 3)),
    ])
    .expect("entries");
    let other = collect_entries(vec![
        Ok(finding("a", "y", 3)),
        Ok(finding("b", "x", 1)),
        Ok(finding("a", "z", 2)),
    ])
    .expect("entries");
    let keys = |entries: &Vec<GitRewriteEntry>| -> Vec<(String, String, u64)> {
        entries.iter().map(|e| (e.source_repo.clone(), e.target_repo.clone(), e.commits)).collect()
    };
    assert_eq!(
        keys(&one),
        vec![
            ("a".to_string(), "y".to_string(), 3),
            ("a".to_string(), "z".to_string(), 2),
            ("b".to_string(), "x".to_string(), 1),
        ]
    );
    assert_eq!(keys(&one), keys(&other));
}

#[test]
fn error_messages_name_the_configuration() {
    let err = GitRewriteError::ConfigRead { path: "/c.toml".to_string(), source: "denied".to_string() };
    assert_eq!(err.message(), "failed to read git rewrite config /c.toml: denied");
    let err = GitRewriteError::ConfigParse { path: "/c.toml".to_string(), source: "bad".to_string() };
    assert_eq!(err.message(), "failed to parse git rewrite config /c.toml: bad");
    let err = GitRewriteError::InvalidConfig { message: "m".to_string() };
    assert_eq!(err.message(), "invalid git rewrite config: m");
    let err = GitRewriteError::ParallelInit { source: "no threads".to_string() };
    assert_eq!(err.message(), "failed to initialize git rewrite worker pool: no threads");
}
