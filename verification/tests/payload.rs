use uncommitted::git_rewrite::time::parse_local_datetime;
use uncommitted::git_rewrite::worker::{handle_object_payload, parse_payload};
use uncommitted::report::collector::{normalize_root_path, scan_root};
use uncommitted::{
    Clock, FsOps, GitOutput, GitRewriteError, GitRunner, Options, ReportData, WalkEntry,
};

fn value(text: &str) -> serde_json::Value {
    serde_json::from_str(text).expect("json")
}

#[test]
fn payload_is_the_list_of_records() {
    let records = parse_payload("k", b" [ {\"a\": 1}, \"x\", null ] ").expect("records");
    assert_eq!(records, vec![value("{\"a\":1}"), value("\"x\""), value("null")]);
    assert!(parse_payload("k", b"[]").expect("records").is_empty());
}

#[test]
fn payload_that_says_nothing_to_do_is_empty() {
    assert!(parse_payload("k", b"{\"msg\":\"nothing to do\",\"n\":0}").expect("records").is_empty());
}

#[test]
fn payload_of_another_shape_is_handed_back() {
    for text in ["{\"msg\":7}", "{\"message\":\"nothing to do\"}", "\"nothing to do\"", "3.5", "null"] {
        match parse_payload("key", text.as_bytes()) {
            Err(GitRewriteError::UnexpectedJson { match_key, value: held }) => {
                assert_eq!(match_key, "key");
                assert_eq!(held, value(text));
            }
            other => panic!("unexpected result for {text}: {other:?}"),
        }
    }
}

#[test]
fn payload_that_is_no_json_gives_the_error_of_the_reading() {
    for text in ["", "[1,", "{\"msg\":\"nothing to do\"} trailing"] {
        match parse_payload("key", text.as_bytes()) {
            Err(GitRewriteError::Json { match_key, .. }) => assert_eq!(match_key, "key"),
            other => panic!("unexpected result for {text:?}: {other:?}"),
        }
    }
}

#[test]
fn object_payload_goes_by_its_message() {
    assert!(handle_object_payload("k", value("{\"msg\":\"NOTHING TO DO\"}")).expect("ok").is_empty());
    match handle_object_payload("k", value("{\"msg\":\"nothing\"}")) {
        Err(GitRewriteError::UnexpectedJson { match_key, value: held }) => {
            assert_eq!(match_key, "k");
            assert_eq!(held, value("{\"msg\":\"nothing\"}"));
        }
        other => panic!("unexpected result: {other:?}"),
    }
}

#[test]
fn timestamps_are_read_in_one_layout_only() {
    assert!(parse_local_datetime("k", "01/03/24 01:30 PM").is_ok());
    assert!(parse_local_datetime("k", "1/3/24 1:30 pm").is_ok());
    for text in ["2024-01-03 13:30", "01/03/24 13:30 PM", "13/03/24 01:30 PM", "01/03/24 01:30", ""] {
        match parse_local_datetime("k", text) {
            Err(GitRewriteError::DateParse { match_key, value, .. }) => {
                assert_eq!(match_key, "k");
                assert_eq!(value, text);
            }
            other => panic!("unexpected result for {text:?}: {other:?}"),
        }
    }
    let noon = parse_local_datetime("k", "06/15/24 12:00 PM").unwrap();
    let later = parse_local_datetime("k", "06/15/24 12:01 PM").unwrap();
    assert_eq!(later - noon, 60);
}

struct Fs {
    cwd: Option<&'static str>,
}

impl FsOps for Fs {
    fn is_repo(&self, dir: &str) -> bool {
        dir.ends_with("/solo")
    }
    fn expand_tilde(&self, p: &str) -> String {
        p.to_string()
    }
    fn path_exists(&self, p: &str) -> bool {
        p != "/gone"
    }
    fn current_dir(&self) -> Option<String> {
        self.cwd.map(|c| c.to_string())
    }
    fn walk(&self, root: &str, _max_depth: usize) -> Vec<WalkEntry> {
        ["zed", "abe"]
            .iter()
            .map(|name| WalkEntry {
                parent: Some(format!("{root}/{name}")),
                name: Some(".git".to_string()),
                is_dir: true,
            })
            .collect()
    }
    fn canonicalize(&self, _p: &str) -> Option<String> {
        None
    }
}

#[test]
fn a_root_is_made_full_against_the_working_directory() {
    let here = Fs { cwd: Some("/work") };
    assert_eq!(normalize_root_path("/abs/root".to_string(), &here), "/abs/root");
    assert_eq!(normalize_root_path("rel/root".to_string(), &here), "/work/rel/root");
    assert_eq!(normalize_root_path("rel/root".to_string(), &Fs { cwd: None }), "rel/root");
}

struct Quiet;

impl GitRunner for Quiet {
    fn run_git(&self, _repo: &str, args: &[&str]) -> Option<GitOutput> {
        let stdout = if args.first() == Some(&"rev-parse") { "main\n" } else { "" };
        Some(GitOutput { success: true, stdout: stdout.to_string(), stderr: String::new() })
    }
}

struct Noon;

impl Clock for Noon {
    fn now(&self) -> i64 {
        0
    }
}

#[test]
fn scanning_a_root_takes_every_repository_under_it_in_order() {
    let opts = Options::default();
    let fs = Fs { cwd: None };
    let mut data = ReportData::default();
    scan_root("~/w", "/w", &opts, &fs, &Quiet, &Noon, &mut data);
    let found: Vec<(&str, &str, &str, &str)> = data
        .repos
        .iter()
        .map(|r| (r.repo.as_str(), r.path.as_str(), r.root_display.as_str(), r.root_full.as_str()))
        .collect();
    assert_eq!(found, vec![("abe", "/w/abe", "~/w", "/w"), ("zed", "/w/zed", "~/w", "/w")]);
    assert_eq!(data.repos[0].branch, "main");
    assert!(data.uncommitted.is_empty() && data.staged.is_empty() && data.pushable.is_empty());

    scan_root("/x/solo", "/x/solo", &opts, &fs, &Quiet, &Noon, &mut data);
    assert_eq!(data.repos.len(), 3);
    assert_eq!(data.repos[2].path, "/x/solo");

    scan_root("/gone", "/gone", &opts, &fs, &Quiet, &Noon, &mut data);
    assert_eq!(data.repos.len(), 3);
}
