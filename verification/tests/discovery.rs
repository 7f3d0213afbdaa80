use uncommitted::git::head::{
    ahead_of_upstream, count_ahead, has_commits, push_metrics, upstream_ref, PushMetrics,
};
use uncommitted::git::metrics::{
    has_staged, has_uncommitted, staged_metrics, uncommitted_metrics, ChangeMetrics,
};
use uncommitted::git::refs::{
    ahead_count_for_ref_pair, commit_age_bounds_for_ref_pair, current_branch, fetch_remote,
    list_local_branches_with_upstream,
};
use uncommitted::report::collector::resolve_roots;
use uncommitted::scan::{discover, find_repos};
use uncommitted::{
    collect_report_data, generate_report, Clock, FsOps, GitOutput, GitRunner, Options, WalkEntry,
};

/// A tree with the repositories `/w/one` and `/w/deep/two`.
struct TreeFs;

impl FsOps for TreeFs {
    fn is_repo(&self, dir: &str) -> bool {
        dir == "/w/one" || dir == "/w/deep/two"
    }
    fn expand_tilde(&self, p: &str) -> String {
        match p.strip_prefix("~") {
            Some(rest) => format!("/home/u{rest}"),
            None => p.to_string(),
        }
    }
    fn path_exists(&self, p: &str) -> bool {
        p.starts_with("/w")
    }
    fn current_dir(&self) -> Option<String> {
        Some("/cwd".to_string())
    }
    fn walk(&self, root: &str, max_depth: usize) -> Vec<WalkEntry> {
        let all = [
            ("/w", true),
            ("/w/one", true),
            ("/w/one/.git", true),
            ("/w/file", false),
            ("/w/deep", true),
            ("/w/deep/two", true),
            ("/w/deep/two/.git", true),
        ];
        all.iter()
            .filter(|(path, _)| {
                path.starts_with(root)
                    && path[root.len()..].matches('/').count() <= max_depth
            })
            .map(|(path, is_dir)| {
                let cut = path.rfind('/').unwrap();
                WalkEntry {
                    parent: Some(path[..cut.max(1)].to_string()),
                    name: Some(path[cut + 1..].to_string()),
                    is_dir: *is_dir,
                }
            })
            .collect()
    }
    fn canonicalize(&self, _p: &str) -> Option<String> {
        None
    }
}

fn roots(list: &[&str]) -> Vec<String> {
    list.iter().map(|r| r.to_string()).collect()
}

#[test]
fn a_root_that_is_a_repository_is_found_as_on_a_walk() {
    let direct = find_repos(&TreeFs, &roots(&["/w/one"]), 1);
    let walked = find_repos(&TreeFs, &roots(&["/w"]), 1);
    assert_eq!(direct, vec!["/w/one"]);
    assert_eq!(walked, vec!["/w/one"]);
    let both = find_repos(&TreeFs, &roots(&["/w/one", "/w", "/w/one"]), 1);
    assert_eq!(both, vec!["/w/one"]);
}

#[test]
fn discovery_goes_no_deeper_than_asked() {
    assert!(find_repos(&TreeFs, &roots(&["/w"]), 0).is_empty());
    assert_eq!(find_repos(&TreeFs, &roots(&["/w"]), 2), vec!["/w/one", "/w/deep/two"]);
    assert_eq!(find_repos(&TreeFs, &roots(&["/w"]), usize::MAX), vec!["/w/one", "/w/deep/two"]);
}

#[test]
fn discovery_passes_over_roots_that_do_not_exist() {
    assert!(find_repos(&TreeFs, &roots(&["/nowhere", "~/src"]), 3).is_empty());
    let handles = discover(&TreeFs, &roots(&["/nowhere", "/w/deep/two", "/w"]), 1);
    let found: Vec<(&str, &str)> =
        handles.iter().map(|h| (h.name.as_str(), h.path.as_str())).collect();
    assert_eq!(found, vec![("one", "/w/one"), ("two", "/w/deep/two")]);
}

#[test]
fn roots_are_resolved_against_the_working_directory() {
    let mut opts = Options::default();
    assert_eq!(
        resolve_roots(&opts, &TreeFs),
        vec![("~/src".to_string(), "/home/u/src".to_string())]
    );
    opts.roots = roots(&["rel/dir", "/abs", "~/x"]);
    assert_eq!(
        resolve_roots(&opts, &TreeFs),
        vec![
            ("rel/dir".to_string(), "/cwd/rel/dir".to_string()),
            ("/abs".to_string(), "/abs".to_string()),
            ("~/x".to_string(), "/home/u/x".to_string()),
        ]
    );
}

/// A runner that answers from a script of (first argument, answer) lines and
/// notes every command it was asked to run.
struct Script {
    answers: Vec<(&'static str, Option<(bool, &'static str)>)>,
    asked: std::cell::RefCell<Vec<String>>,
}

impl Script {
    fn new(answers: Vec<(&'static str, Option<(bool, &'static str)>)>) -> Script {
        Script { answers, asked: std::cell::RefCell::new(Vec::new()) }
    }
    fn asked(&self) -> Vec<String> {
        self.asked.borrow().clone()
    }
}

impl GitRunner for Script {
    fn run_git(&self, repo: &str, args: &[&str]) -> Option<GitOutput> {
        let line = args.join(" ");
        self.asked.borrow_mut().push(format!("{repo}: {line}"));
        let (_, answer) = self.answers.iter().find(|(start, _)| line.starts_with(start))?;
        answer.map(|(success, stdout)| GitOutput {
            success,
            stdout: stdout.to_string(),
            stderr: String::new(),
        })
    }
}

struct At(i64);

impl Clock for At {
    fn now(&self) -> i64 {
        self.0
    }
}

#[test]
fn metrics_run_the_diff_and_the_listing() {
    let git = Script::new(vec![
        ("diff --numstat", Some((true, "1\t2\ta\n-\t-\tb\n"))),
        ("diff --cached --numstat", Some((true, "7\t0\tc\n"))),
        ("ls-files", Some((true, "x\ny\n\n"))),
    ]);
    assert_eq!(
        uncommitted_metrics("/r", true, &git),
        ChangeMetrics { lines: 3, files: 2, untracked: 2 }
    );
    assert_eq!(
        uncommitted_metrics("/r", false, &git),
        ChangeMetrics { lines: 3, files: 2, untracked: 0 }
    );
    assert_eq!(staged_metrics("/r", &git), ChangeMetrics { lines: 7, files: 1, untracked: 2 });
    assert_eq!(
        git.asked(),
        vec![
            "/r: diff --numstat --ignore-submodules -- .",
            "/r: ls-files --others --exclude-standard",
            "/r: diff --numstat --ignore-submodules -- .",
            "/r: diff --cached --numstat --ignore-submodules -- .",
            "/r: ls-files --others --exclude-standard",
        ]
    );
}

#[test]
fn a_runner_that_cannot_start_gives_no_signal() {
    let git = Script::new(Vec::new());
    assert_eq!(uncommitted_metrics("/r", true, &git), ChangeMetrics { lines: 0, files: 0, untracked: 0 });
    assert!(!has_uncommitted("/r", true, &git));
    assert!(!has_staged("/r", &git));
    assert_eq!(current_branch("/r", &git), None);
    assert!(list_local_branches_with_upstream("/r", &git).is_empty());
    assert!(!fetch_remote("/r", &git, "origin"));
    assert_eq!(ahead_count_for_ref_pair("/r", &git, "main", "origin/main"), None);
    assert_eq!(commit_age_bounds_for_ref_pair("/r", &git, &At(5), "main", "origin/main"), None);
    assert!(!has_commits("/r", &git));
    assert_eq!(upstream_ref("/r", &git), None);
    assert_eq!(push_metrics("/r", &git, &At(5)), None);
    assert_eq!(ahead_of_upstream("/r", &git), (false, false));
}

#[test]
fn dirty_checks_go_by_the_exit_of_the_quiet_diff() {
    let dirty = Script::new(vec![("diff --quiet", Some((false, ""))), ("ls-files", Some((true, "")))]);
    assert!(has_uncommitted("/r", true, &dirty));
    assert_eq!(dirty.asked().len(), 1);
    let untracked =
        Script::new(vec![("diff --quiet", Some((true, ""))), ("ls-files", Some((true, " \nnew\n")))]);
    assert!(has_uncommitted("/r", true, &untracked));
    assert!(!has_uncommitted("/r", false, &untracked));
    let clean = Script::new(vec![("diff --quiet", Some((true, ""))), ("ls-files", Some((true, "\n \n")))]);
    assert!(!has_uncommitted("/r", true, &clean));
    let staged = Script::new(vec![("diff --cached --quiet", Some((false, "")))]);
    assert!(has_staged("/r", &staged));
    assert_eq!(staged.asked(), vec!["/r: diff --cached --quiet --ignore-submodules -- ."]);
}

#[test]
fn refs_are_read_off_the_tool() {
    let git = Script::new(vec![
        ("rev-parse --abbrev-ref HEAD", Some((true, " topic \n"))),
        ("rev-parse --abbrev-ref --symbolic-full-name @{u}", Some((true, "origin/topic\n"))),
        ("rev-parse --verify HEAD", Some((true, "abc\n"))),
        ("for-each-ref", Some((true, "topic origin/topic\nsolo\n"))),
        ("rev-list --count origin/topic..topic", Some((true, "3\n"))),
        ("rev-list --count origin/topic..HEAD", Some((true, "x\n"))),
        ("log --format=%ct origin/topic..topic", Some((true, "90\n40\n"))),
        ("fetch --prune --no-tags origin", Some((true, ""))),
    ]);
    assert_eq!(current_branch("/r", &git), Some("topic".to_string()));
    assert_eq!(
        list_local_branches_with_upstream("/r", &git),
        vec![("topic".to_string(), "origin/topic".to_string())]
    );
    assert_eq!(ahead_count_for_ref_pair("/r", &git, "topic", "origin/topic"), Some(3));
    assert_eq!(
        commit_age_bounds_for_ref_pair("/r", &git, &At(100), "topic", "origin/topic"),
        Some((Some(60), Some(10)))
    );
    assert_eq!(
        commit_age_bounds_for_ref_pair("/r", &git, &At(-3), "topic", "origin/topic"),
        Some((Some(0), Some(0)))
    );
    assert!(fetch_remote("/r", &git, "origin"));
    assert!(has_commits("/r", &git));
    assert_eq!(upstream_ref("/r", &git), Some("origin/topic".to_string()));
    // an unreadable count is taken for zero
    assert_eq!(count_ahead("/r", &git, "origin/topic"), Some(0));
    assert_eq!(push_metrics("/r", &git, &At(100)), None);
    assert_eq!(ahead_of_upstream("/r", &git), (false, true));
}

#[test]
fn push_metrics_need_a_lead() {
    let git = Script::new(vec![
        ("rev-parse --abbrev-ref --symbolic-full-name @{u}", Some((true, "origin/main\n"))),
        ("rev-list --count origin/main..HEAD", Some((true, "2\n"))),
        ("log --format=%ct origin/main..HEAD", Some((true, "10\n30\n"))),
    ]);
    assert_eq!(
        push_metrics("/r", &git, &At(50)),
        Some(PushMetrics { ahead: 2, earliest_age: Some(40), latest_age: Some(20) })
    );
    assert_eq!(ahead_of_upstream("/r", &git), (true, true));
}

struct OneRepoFs;

impl FsOps for OneRepoFs {
    fn is_repo(&self, _dir: &str) -> bool {
        true
    }
    fn expand_tilde(&self, p: &str) -> String {
        p.to_string()
    }
    fn path_exists(&self, _p: &str) -> bool {
        true
    }
    fn current_dir(&self) -> Option<String> {
        None
    }
    fn walk(&self, _root: &str, _max_depth: usize) -> Vec<WalkEntry> {
        Vec::new()
    }
    fn canonicalize(&self, _p: &str) -> Option<String> {
        None
    }
}

fn age(secs: u64) -> String {
    format!("{:.1} min", secs as f64 / 60.0)
}

#[test]
fn a_repository_without_a_branch_name_is_reported_under_head() {
    let git = Script::new(vec![
        ("rev-parse --abbrev-ref HEAD", Some((false, ""))),
        ("diff --quiet", Some((false, ""))),
        ("diff --numstat", Some((true, "2\t2\tf\n"))),
        ("ls-files", Some((true, ""))),
        ("diff --cached --quiet", Some((true, ""))),
        ("for-each-ref", Some((true, "HEAD origin/x\nside fork/side\n"))),
        ("fetch --prune --no-tags origin", Some((false, ""))),
        ("fetch --prune --no-tags fork", Some((true, ""))),
        ("rev-list --count origin/x..HEAD", Some((true, "0\n"))),
        ("rev-list --count fork/side..side", Some((true, "1\n"))),
        ("log --format=%ct fork/side..side", Some((true, "940\n"))),
    ]);
    let opts = Options {
        roots: vec!["/a/repo".to_string(), "/b/repo".to_string()],
        depth: 0,
        no_untracked: true,
        debug: false,
        refresh_remotes: true,
        git_rewrite_toml: None,
        git_rewrite_path: None,
    };
    let data = collect_report_data(&opts, &OneRepoFs, &git, &At(1000));
    assert!(data.multi_root);
    assert_eq!(data.repos.len(), 2);
    assert_eq!(data.repos[0].repo, "repo");
    assert_eq!(data.repos[0].branch, "HEAD");
    assert_eq!(data.repos[0].path, "/a/repo");
    assert_eq!(data.repos[0].root_display, "/a/repo");
    assert_eq!(data.repos[0].head_revs, Some(0));
    assert_eq!(data.repos[0].head_earliest_secs, None);
    assert_eq!(data.uncommitted.len(), 2);
    assert_eq!(data.uncommitted[1].root_full, "/b/repo");
    assert_eq!(data.uncommitted[0].untracked, 0);
    assert!(data.staged.is_empty());
    assert_eq!(data.pushable.len(), 2);
    assert_eq!(data.pushable[0].branch, "side");
    assert_eq!(data.pushable[0].revs, 1);
    assert_eq!(data.pushable[0].earliest_secs, Some(60));
    assert_eq!(data.pushable[0].latest_secs, Some(60));
    let fetches: Vec<String> =
        git.asked().into_iter().filter(|line| line.contains(": fetch ")).collect();
    assert_eq!(
        fetches,
        vec![
            "/a/repo: fetch --prune --no-tags origin",
            "/a/repo: fetch --prune --no-tags fork",
            "/b/repo: fetch --prune --no-tags origin",
            "/b/repo: fetch --prune --no-tags fork",
        ]
    );
    let report = generate_report(&opts, &OneRepoFs, &git, &At(1000), &age);
    assert_eq!(
        report,
        "uncommitted: repo (4 lines, 1 files, 0 untracked), repo (4 lines, 1 files, 0 untracked)\n\
         staged: \n\
         pushable: repo (1 revs, earliest: 1.0 min ago, latest: 1.0 min ago), \
         repo (1 revs, earliest: 1.0 min ago, latest: 1.0 min ago)"
    );
}
