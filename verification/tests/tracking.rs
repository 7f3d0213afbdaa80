use uncommitted::git_rewrite::config::{GitRewriteConfig, RepoSpec, RepoType};
use uncommitted::git_rewrite::tracking::{
    reconcile, PlacedEndpoint, PlacedRepo,
};
use uncommitted::git_rewrite::config::Endpoint;
use uncommitted::{
    collect_git_rewrite_untracked, FsOps, GitRewriteError, RepoSummary, UntrackedReason, WalkEntry,
};

/// A file system on which no path has a canonical form but the ones listed.
struct PlainFs {
    canonical: Vec<(String, String)>,
}

impl FsOps for PlainFs {
    fn is_repo(&self, _dir: &str) -> bool {
        false
    }
    fn expand_tilde(&self, p: &str) -> String {
        p.to_string()
    }
    fn path_exists(&self, _p: &str) -> bool {
        false
    }
    fn current_dir(&self) -> Option<String> {
        None
    }
    fn walk(&self, _root: &str, _max_depth: usize) -> Vec<WalkEntry> {
        Vec::new()
    }
    fn canonicalize(&self, p: &str) -> Option<String> {
        self.canonical.iter().find(|(from, _)| from == p).map(|(_, to)| to.clone())
    }
}

fn spec(path: &str, branch: &str, key: &str, repo_type: RepoType, ignore: bool) -> RepoSpec {
    RepoSpec {
        repository_path: path.to_string(),
        repository_branch: branch.to_string(),
        match_key: key.to_string(),
        repo_type,
        ignore,
    }
}

#[allow(clippy::too_many_arguments)]
fn repo(
    name: &str,
    branch: &str,
    path: &str,
    root_display: &str,
    root_full: &str,
    head_revs: Option<u64>,
    head_earliest_secs: Option<u64>,
    head_latest_secs: Option<u64>,
) -> RepoSummary {
    RepoSummary {
        repo: name.to_string(),
        branch: branch.to_string(),
        path: path.to_string(),
        root_display: root_display.to_string(),
        root_full: root_full.to_string(),
        head_revs,
        head_earliest_secs,
        head_latest_secs,
    }
}

struct UntrackedScenario {
    config: GitRewriteConfig,
    repos: Vec<RepoSummary>,
    missing_repo_path: String,
}

impl UntrackedScenario {
    fn expected_missing_repo(&self) -> String {
        self.missing_repo_path.clone()
    }
}

fn scenario_missing_and_ignored() -> UntrackedScenario {
    let source_dir = "/tmp/scenario/source_repo";
    let target_dir = "/tmp/scenario/target_repo";
    let ignored_dir = "/tmp/scenario/ignored_repo";
    let missing_dir = "/tmp/scenario/missing_repo";
    let config = GitRewriteConfig {
        repos: vec![
            spec(source_dir, "main", "1", RepoType::Source, false),
            spec(target_dir, "dev", "1", RepoType::Target, false),
            spec(ignored_dir, "feature", "2", RepoType::Source, true),
            spec(ignored_dir, "feature", "2", RepoType::Target, true),
        ],
    };
    let repos = vec![
        repo("source_repo", "main", source_dir, "~/src", "/tmp/src", Some(3), Some(10), Some(5)),
        repo("target_repo", "dev", target_dir, "~/main", "/tmp/main", Some(2), None, None),
        repo("ignored_repo", "feature", ignored_dir, "~/src", "/tmp/src", Some(1), Some(20), Some(8)),
        repo("missing_repo", "main", missing_dir, "~/main", "/tmp/main", Some(0), None, None),
    ];
    UntrackedScenario { config, repos, missing_repo_path: missing_dir.to_string() }
}

fn scenario_missing_configured_repo() -> UntrackedScenario {
    let source_dir = "/tmp/scenario/source_repo";
    let target_dir = "/tmp/scenario/target_repo";
    let config = GitRewriteConfig {
        repos: vec![
            spec(source_dir, "main", "1", RepoType::Source, false),
            spec(target_dir, "dev", "1", RepoType::Target, false),
        ],
    };
    let repos = vec![repo(
        "source_repo",
        "main",
        source_dir,
        "~/src",
        "/tmp/src",
        Some(3),
        Some(10),
        Some(5),
    )];
    UntrackedScenario { config, repos, missing_repo_path: target_dir.to_string() }
}

#[test]
fn collect_untracked_reports_missing_and_ignored() {
    let scenario = scenario_missing_and_ignored();
    let fs = PlainFs { canonical: Vec::new() };
    let entries = collect_git_rewrite_untracked(&scenario.config, &scenario.repos, &fs)
        .expect("untracked entries");
    assert_eq!(entries.len(), 2);
    let first = &entries[0];
    assert_eq!(first.repo, "missing_repo");
    assert_eq!(first.reason, UntrackedReason::MissingConfig);
    assert_eq!(first.revs, Some(0));

    let second = &entries[1];
    assert_eq!(second.repo, "ignored_repo");
    assert_eq!(second.reason, UntrackedReason::Ignored);
    assert_eq!(second.revs, Some(1));
    assert_eq!(second.earliest_secs, Some(20));
    assert_eq!(second.latest_secs, Some(8));
}

#[test]
fn collect_untracked_reports_missing_configured_repos() {
    let scenario = scenario_missing_configured_repo();
    let fs = PlainFs { canonical: Vec::new() };
    let entries = collect_git_rewrite_untracked(&scenario.config, &scenario.repos, &fs)
        .expect("untracked entries");
    assert_eq!(entries.len(), 1);
    let entry = &entries[0];
    assert_eq!(entry.reason, UntrackedReason::MissingRepo);
    assert_eq!(entry.branch, "dev");
    assert_eq!(entry.repo, scenario.expected_missing_repo());
    assert!(entry.revs.is_none());
}

#[test]
fn collect_untracked_reports_a_wrong_pairing() {
    let config = GitRewriteConfig {
        repos: vec![spec("/tmp/only", "main", "9", RepoType::Source, false)],
    };
    let fs = PlainFs { canonical: Vec::new() };
    let err = collect_git_rewrite_untracked(&config, &Vec::new(), &fs).unwrap_err();
    match err {
        GitRewriteError::InvalidConfig { message } => {
            assert_eq!(message, "match-key 9 must define both source and target repos");
        }
        other => panic!("unexpected error: {other:?}"),
    }
}

#[test]
fn collect_untracked_compares_canonical_places() {
    let config = GitRewriteConfig {
        repos: vec![
            spec("/link/source", "main", "1", RepoType::Source, false),
            spec("/real/target", "main", "1", RepoType::Target, false),
        ],
    };
    let fs = PlainFs {
        canonical: vec![("/link/source".to_string(), "/real/source".to_string())],
    };
    let repos = vec![
        repo("source", "main", "/real/source", "~/src", "/real", Some(1), None, None),
        repo("target", "main", "/real/target", "~/src", "/real", None, None, None),
    ];
    let entries = collect_git_rewrite_untracked(&config, &repos, &fs).expect("entries");
    assert!(entries.is_empty());
}

fn placed_repo(name: &str, location: &str, revs: Option<u64>) -> PlacedRepo {
    PlacedRepo {
        summary: repo(name, "main", location, "~/src", "/src", revs, Some(7), Some(3)),
        location: location.to_string(),
    }
}

fn placed_endpoint(path: &str, branch: &str, location: &str) -> PlacedEndpoint {
    PlacedEndpoint {
        endpoint: Endpoint { path: path.to_string(), branch: branch.to_string() },
        location: location.to_string(),
    }
}

#[test]
fn reconcile_tells_the_three_reasons_apart() {
    let repos = vec![
        placed_repo("tracked", "/r/tracked", Some(1)),
        placed_repo("ignored", "/r/ignored", Some(4)),
        placed_repo("stranger", "/r/stranger", None),
    ];
    let endpoints = vec![
        placed_endpoint("/r/tracked", "main", "/r/tracked"),
        placed_endpoint("/r/gone", "dev", "/r/gone"),
    ];
    let ignored = vec!["/r/ignored".to_string()];
    let entries = reconcile(&repos, &endpoints, &ignored);
    assert_eq!(entries.len(), 3);
    // ordered by root, then name, then branch
    assert_eq!(entries[0].repo, "/r/gone");
    assert_eq!(entries[0].root_display, "/r/gone");
    assert_eq!(entries[0].root_full, "/r/gone");
    assert_eq!(entries[0].branch, "dev");
    assert_eq!(entries[0].reason, UntrackedReason::MissingRepo);
    assert_eq!(entries[0].revs, None);
    assert_eq!(entries[0].earliest_secs, None);
    assert_eq!(entries[0].latest_secs, None);
    assert_eq!(entries[1].repo, "ignored");
    assert_eq!(entries[1].reason, UntrackedReason::Ignored);
    assert_eq!(entries[1].revs, Some(4));
    assert_eq!(entries[1].earliest_secs, Some(7));
    assert_eq!(entries[1].latest_secs, Some(3));
    assert_eq!(entries[2].repo, "stranger");
    assert_eq!(entries[2].reason, UntrackedReason::MissingConfig);
    assert_eq!(entries[2].revs, None);
}

#[test]
fn reconcile_reports_a_missing_place_once() {
    let repos: Vec<PlacedRepo> = Vec::new();
    let endpoints = vec![
        placed_endpoint("/a/one", "main", "/real/one"),
        placed_endpoint("/b/one", "dev", "/real/one"),
    ];
    let entries = reconcile(&repos, &endpoints, &Vec::new());
    assert_eq!(entries.len(), 1);
    assert_eq!(entries[0].repo, "/a/one");
    assert_eq!(entries[0].root_full, "/real/one");
}
