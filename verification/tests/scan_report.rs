use uncommitted::git::metrics::{count_lines, parse_numstat};
use uncommitted::{
    collect_report_data, Clock, FsOps, GitOutput, GitRunner, Options, WalkEntry,
};

struct MockGit;

fn out_ok(stdout: &str) -> Option<GitOutput> {
    Some(GitOutput { success: true, stdout: stdout.to_string(), stderr: String::new() })
}

fn out_fail() -> Option<GitOutput> {
    Some(GitOutput { success: false, stdout: String::new(), stderr: String::new() })
}

impl GitRunner for MockGit {
    fn run_git(&self, repo: &str, args: &[&str]) -> Option<GitOutput> {
        let reponame = repo.rsplit('/').next().unwrap_or("");
        match args.first().copied().unwrap_or("") {
            "rev-parse" => out_ok("main\n"),
            "diff" => {
                let has_cached = args.iter().any(|a| *a == "--cached");
                let has_quiet = args.iter().any(|a| *a == "--quiet");
                let has_numstat = args.iter().any(|a| *a == "--numstat");
                if has_cached {
                    if reponame == "b" {
                        if has_quiet {
                            return out_fail();
                        }
                        if has_numstat {
                            return out_ok("40\t0\tb1\n40\t0\tb2\n");
                        }
                    }
                    return out_ok("");
                }
                if reponame == "a" {
                    if has_quiet {
                        return out_fail();
                    }
                    if has_numstat {
                        return out_ok("25\t0\ta1\n25\t0\ta2\n25\t0\ta3\n");
                    }
                }
                out_ok("")
            }
            "ls-files" => {
                if reponame == "a" {
                    return out_ok("untracked.txt\n");
                }
                out_ok("")
            }
            "for-each-ref" => {
                if reponame == "c" {
                    return out_ok("main origin/main\nlocal-only \n");
                }
                out_ok("")
            }
            "rev-list" => {
                if reponame == "c" {
                    return out_ok("7\n");
                }
                out_ok("0\n")
            }
            "log" => {
                if reponame == "c" {
                    let now = 1_000_000_000u64;
                    return out_ok(&format!("{}\n{}\n", now - 120_960, now - 4_080));
                }
                out_ok("")
            }
            _ => out_ok(""),
        }
    }
}

struct MockFs;

impl FsOps for MockFs {
    fn is_repo(&self, _dir: &str) -> bool {
        false
    }
    fn expand_tilde(&self, p: &str) -> String {
        p.to_string()
    }
    fn path_exists(&self, _p: &str) -> bool {
        true
    }
    fn current_dir(&self) -> Option<String> {
        Some("/work".to_string())
    }
    fn walk(&self, root: &str, _max_depth: usize) -> Vec<WalkEntry> {
        let mut entries = Vec::new();
        for name in ["c", "a", "b"] {
            entries.push(WalkEntry {
                parent: Some(root.to_string()),
                name: Some(name.to_string()),
                is_dir: true,
            });
            entries.push(WalkEntry {
                parent: Some(format!("{root}/{name}")),
                name: Some(".git".to_string()),
                is_dir: true,
            });
        }
        entries
    }
    fn canonicalize(&self, _p: &str) -> Option<String> {
        None
    }
}

struct MockClock;

impl Clock for MockClock {
    fn now(&self) -> i64 {
        1_000_000_000
    }
}

#[test]
fn numstat_example_sums_lines_and_files() {
    assert_eq!(parse_numstat("10\t5\tfile1\n3\t0\tfile2\n"), (18, 2));
}

#[test]
fn numstat_binary_marker_counts_the_file_only() {
    assert_eq!(parse_numstat("-\t-\timage.png\n4\t1\tsrc.rs\n"), (5, 2));
}

#[test]
fn count_lines_skips_blank_lines() {
    assert_eq!(count_lines("a\n\n  \nb\r\nc"), 3);
}

#[test]
fn scan_collects_changes_and_pushables() {
    let opts = Options {
        roots: vec!["/tmp/root".to_string()],
        depth: 1,
        no_untracked: false,
        debug: false,
        refresh_remotes: false,
        git_rewrite_toml: None,
        git_rewrite_path: None,
    };
    let data = collect_report_data(&opts, &MockFs, &MockGit, &MockClock);
    assert!(!data.multi_root);
    assert_eq!(data.repos.len(), 3);
    assert_eq!(data.repos[0].repo, "a");
    assert_eq!(data.repos[1].repo, "b");
    assert_eq!(data.repos[2].repo, "c");
    assert_eq!(data.uncommitted.len(), 1);
    assert_eq!(data.uncommitted[0].repo, "a");
    assert_eq!(data.uncommitted[0].branch, "main");
    assert_eq!(data.uncommitted[0].lines, 75);
    assert_eq!(data.uncommitted[0].files, 3);
    assert_eq!(data.uncommitted[0].untracked, 1);
    assert_eq!(data.staged.len(), 1);
    assert_eq!(data.staged[0].repo, "b");
    assert_eq!(data.staged[0].lines, 80);
    assert_eq!(data.staged[0].files, 2);
    assert_eq!(data.pushable.len(), 1);
    assert_eq!(data.pushable[0].repo, "c");
    assert_eq!(data.pushable[0].revs, 7);
    assert_eq!(data.pushable[0].earliest_secs, Some(120_960));
    assert_eq!(data.pushable[0].latest_secs, Some(4_080));
    assert_eq!(data.repos[2].head_revs, Some(7));
}
