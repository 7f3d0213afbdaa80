use std::cell::RefCell;

use uncommitted::git_rewrite::config::{
    match_key_to_string, GitRewriteConfig, MatchKey, RepoSpec, RepoType,
};
use uncommitted::git_rewrite::time::{diff_seconds, parse_local_datetime};
use uncommitted::git_rewrite::worker::AuditOutcome;
use uncommitted::{collect_git_rewrite_entries, Clock, GitRewriteError};

struct FixedClock(i64);

impl Clock for FixedClock {
    fn now(&self) -> i64 {
        self.0
    }
}

fn spec(path: &str, branch: &str, key: &str, repo_type: RepoType, ignore: bool) -> RepoSpec {
    RepoSpec {
        repository_path: path.to_string(),
        repository_branch: branch.to_string(),
        match_key: key.to_string(),
        repo_type,
        ignore,
    }
}

fn one_pair(key: &str) -> GitRewriteConfig {
    GitRewriteConfig {
        repos: vec![
            spec("/tmp/work/source_repo", "main", key, RepoType::Source, false),
            spec("/tmp/work/target_repo", "dev", key, RepoType::Target, false),
        ],
    }
}

fn exited(stdout: &str) -> AuditOutcome {
    AuditOutcome::Exited {
        success: true,
        status: "exit status: 0".to_string(),
        stdout: stdout.as_bytes().to_vec(),
        stderr: String::new(),
    }
}

fn failed(code: i32, stderr: &str) -> AuditOutcome {
    AuditOutcome::Exited {
        success: false,
        status: format!("exit status: {code}"),
        stdout: Vec::new(),
        stderr: stderr.to_string(),
    }
}

#[test]
fn git_rewrite_collect_entries_counts_unique_commits() {
    let config = one_pair(&match_key_to_string(&MatchKey::Number(1)));
    let payload = "[\n  { \"commit_hash\": \"abc\", \"dt\": \"01/02/24 08:00 AM\" },\n  { \"commit_hash\": \"def\", \"dt\": \"01/01/24 04:00 AM\" },\n  { \"commit_hash\": \"abc\", \"dt\": \"01/02/24 08:00 AM\" }\n]\n";
    let now_dt = parse_local_datetime("test", "01/03/24 01:30 PM").expect("now parse");
    let clock = FixedClock(now_dt);
    let run = |_args: Vec<String>| exited(payload);

    let entries = collect_git_rewrite_entries(&config, &run, &clock).expect("entries");

    assert_eq!(entries.len(), 1);
    let entry = &entries[0];
    assert_eq!(entry.source_repo, "source_repo");
    assert_eq!(entry.source_branch, "main");
    assert_eq!(entry.target_repo, "target_repo");
    assert_eq!(entry.target_branch, "dev");
    assert_eq!(entry.commits, 2);

    let earliest =
        diff_seconds(now_dt, parse_local_datetime("test", "01/01/24 04:00 AM").unwrap());
    let latest = diff_seconds(now_dt, parse_local_datetime("test", "01/02/24 08:00 AM").unwrap());
    assert_eq!(entry.earliest_secs, Some(earliest));
    assert_eq!(entry.latest_secs, Some(latest));
}

#[test]
fn git_rewrite_match_key_accepts_integer() {
    let table: toml::Table = "value = 7".parse().expect("parse");
    let key = match table.get("value") {
        Some(toml::Value::Integer(i)) => MatchKey::Number(*i),
        other => panic!("unexpected value: {other:?}"),
    };
    assert_eq!(match_key_to_string(&key), "7");
}

fn three_pairs() -> GitRewriteConfig {
    GitRewriteConfig {
        repos: vec![
            spec("/s/zeta", "main", "C", RepoType::Source, false),
            spec("/t/zeta", "main", "C", RepoType::Target, false),
            spec("/s/alpha", "main", "B", RepoType::Source, false),
            spec("/t/alpha", "main", "B", RepoType::Target, false),
            spec("/s/mid", "main", "A", RepoType::Source, false),
            spec("/t/mid", "main", "A", RepoType::Target, false),
        ],
    }
}

#[test]
fn batch_runs_the_tool_with_the_arguments_of_each_pair() {
    let seen: RefCell<Vec<Vec<String>>> = RefCell::new(Vec::new());
    let run = |args: Vec<String>| {
        seen.borrow_mut().push(args);
        exited("[]")
    };
    let entries =
        collect_git_rewrite_entries(&three_pairs(), &run, &FixedClock(0)).expect("entries");
    // the pairs are run in order of their keys, the findings listed in order of their names
    let sources: Vec<String> = seen.borrow().iter().map(|args| args[1].clone()).collect();
    assert_eq!(sources, vec!["/s/mid", "/s/alpha", "/s/zeta"]);
    assert_eq!(seen.borrow()[0][5], "/t/mid");
    assert_eq!(seen.borrow()[0].len(), 16);
    let names: Vec<&str> = entries.iter().map(|e| e.source_repo.as_str()).collect();
    assert_eq!(names, vec!["alpha", "mid", "zeta"]);
}

#[test]
fn batch_stops_at_the_first_failure() {
    let runs = RefCell::new(0usize);
    let run = |args: Vec<String>| {
        *runs.borrow_mut() += 1;
        if args[1] == "/s/alpha" {
            failed(2, "broken\n")
        } else {
            exited("[]")
        }
    };
    let err = collect_git_rewrite_entries(&three_pairs(), &run, &FixedClock(0)).unwrap_err();
    assert_eq!(
        err.message(),
        "git_rewrite invocation for match-key B failed with status exit status: 2: broken"
    );
    assert_eq!(*runs.borrow(), 2);
}

#[test]
fn batch_gives_the_same_list_on_every_run() {
    let run = |args: Vec<String>| {
        if args[1] == "/s/mid" {
            exited("[{\"commit_hash\":\"a\"},{\"commit_hash\":\"b\"}]")
        } else {
            exited("{\"msg\":\"nothing to do\"}")
        }
    };
    let first = collect_git_rewrite_entries(&three_pairs(), &run, &FixedClock(77)).expect("first");
    let second = collect_git_rewrite_entries(&three_pairs(), &run, &FixedClock(77)).expect("second");
    let shown = |entries: &Vec<uncommitted::GitRewriteEntry>| format!("{entries:?}");
    assert_eq!(shown(&first), shown(&second));
    assert_eq!(first[1].commits, 2);
}

#[test]
fn batch_without_pairs_runs_nothing() {
    struct NoClock;
    impl Clock for NoClock {
        fn now(&self) -> i64 {
            panic!("the clock must not be read")
        }
    }
    let run = |_args: Vec<String>| -> AuditOutcome { panic!("the tool must not be run") };
    let config = GitRewriteConfig {
        repos: vec![
            spec("/s", "main", "42", RepoType::Source, true),
            spec("/t", "dev", "42", RepoType::Target, false),
        ],
    };
    let entries = collect_git_rewrite_entries(&config, &run, &NoClock).expect("entries");
    assert!(entries.is_empty());
}

#[test]
fn batch_refuses_a_wrong_pairing_before_running() {
    let run = |_args: Vec<String>| -> AuditOutcome { panic!("the tool must not be run") };
    let config = GitRewriteConfig {
        repos: vec![spec("/s", "main", "1", RepoType::Source, false)],
    };
    let err = collect_git_rewrite_entries(&config, &run, &FixedClock(0)).unwrap_err();
    assert!(matches!(err, GitRewriteError::InvalidConfig { .. }));
}

#[test]
fn batch_reports_a_tool_that_does_not_start() {
    let run = |_args: Vec<String>| AuditOutcome::NotStarted { reason: "not found".to_string() };
    let err = collect_git_rewrite_entries(&one_pair("1"), &run, &FixedClock(0)).unwrap_err();
    assert!(matches!(&err, GitRewriteError::CommandIo { source } if source == "not found"));
}

#[test]
fn batch_reads_the_clock_once() {
    struct Counting(RefCell<i64>);
    impl Clock for Counting {
        fn now(&self) -> i64 {
            *self.0.borrow_mut() += 1000;
            *self.0.borrow()
        }
    }
    let at = |text: &str| parse_local_datetime("t", text).unwrap();
    let base = at("01/03/24 01:30 PM");
    let clock = Counting(RefCell::new(base - 1000));
    let run = |_args: Vec<String>| exited("[{\"commit_hash\":\"a\",\"dt\":\"01/02/24 01:30 PM\"}]");
    let entries = collect_git_rewrite_entries(&three_pairs(), &run, &clock).expect("entries");
    assert_eq!(entries.len(), 3);
    let age = diff_seconds(base, at("01/02/24 01:30 PM"));
    for entry in &entries {
        assert_eq!(entry.commits, 1);
        assert_eq!(entry.earliest_secs, Some(age));
        assert_eq!(entry.latest_secs, Some(age));
    }
    assert_eq!(*clock.0.borrow(), base);
}
