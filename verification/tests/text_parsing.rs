use uncommitted::git::refs::{parse_age_bounds, parse_branch_list, range_argument};
use uncommitted::order::{compare_text, sort_by};
use uncommitted::report::repository::remote_names;
use uncommitted::scan::{merge_discovered, repos_in_walk, ByName, RepoHandle};
use uncommitted::text::{
    chars_of, eq_ignoring_ascii_case, join_texts, lines_of, read_u64, trimmed,
};
use uncommitted::WalkEntry;

fn parse(s: &str) -> Option<u64> {
    read_u64(s)
}

#[test]
fn parse_u64_reads_decimal_numbers_only() {
    assert_eq!(parse("0"), Some(0));
    assert_eq!(parse("007"), Some(7));
    assert_eq!(parse("+5"), Some(5));
    assert_eq!(parse("18446744073709551615"), Some(u64::MAX));
    assert_eq!(parse("18446744073709551616"), None);
    assert_eq!(parse(""), None);
    assert_eq!(parse("+"), None);
    assert_eq!(parse("-1"), None);
    assert_eq!(parse("1 "), None);
    assert_eq!(parse("１"), None);
    for s in ["0", "+5", "-", "12a", "", "99999999999999999999"] {
        assert_eq!(parse(s), s.parse::<u64>().ok());
    }
}

#[test]
fn lines_end_at_line_feeds() {
    for text in ["a\r\nb\n\nc\r", "", "\n", "x", "x\n", "\r\n\r", "a\n\nb\n\n"] {
        let expected: Vec<String> = text.lines().map(|l| l.to_string()).collect();
        assert_eq!(lines_of(text), expected);
    }
    assert_eq!(lines_of("a\r\nb\n\nc\r"), vec!["a", "b", "", "c\r"]);
    assert!(lines_of("").is_empty());
    assert_eq!(chars_of("héé"), vec!['h', 'é', 'é']);
}

#[test]
fn trimmed_removes_unicode_white_space() {
    assert_eq!(trimmed(" \t x y \u{a0}\u{3000}\n"), "x y");
    assert_eq!(trimmed("\u{2003}"), "");
    assert_eq!(trimmed("\u{200b}x"), "\u{200b}x");
}

#[test]
fn texts_compare_as_strings_do() {
    let samples = ["", "a", "ab", "b", "B", "é", "zz", "a\u{10000}", "a\u{ffff}"];
    for a in samples {
        for b in samples {
            let expected = match a.cmp(b) {
                std::cmp::Ordering::Less => -1,
                std::cmp::Ordering::Equal => 0,
                std::cmp::Ordering::Greater => 1,
            };
            assert_eq!(compare_text(a, b).signum(), expected, "{a:?} against {b:?}");
        }
    }
}

#[test]
fn case_is_ignored_for_ascii_letters_only() {
    assert!(eq_ignoring_ascii_case("Nothing", "nOTHING"));
    assert!(!eq_ignoring_ascii_case("é", "É"));
    assert!(!eq_ignoring_ascii_case("a", "ab"));
}

#[test]
fn join_puts_the_separator_between() {
    assert_eq!(join_texts(&Vec::new(), ", "), "");
    assert_eq!(join_texts(&vec!["a".to_string()], ", "), "a");
    assert_eq!(join_texts(&vec!["a".to_string(), "b".to_string(), "c".to_string()], ", "), "a, b, c");
}

#[test]
fn branch_list_names_branches_with_an_upstream() {
    let pairs = parse_branch_list("main origin/main\nlocal \n  dev   fork/dev extra\n\n");
    assert_eq!(
        pairs,
        vec![
            ("main".to_string(), "origin/main".to_string()),
            ("dev".to_string(), "fork/dev".to_string()),
        ]
    );
}

#[test]
fn age_bounds_are_the_oldest_and_the_newest_age() {
    assert_eq!(parse_age_bounds("", 100), (None, None));
    assert_eq!(parse_age_bounds("90\n 40 \nx\n120\n", 100), (Some(60), Some(0)));
    assert_eq!(range_argument("main", "origin/main"), "origin/main..main");
}

#[test]
fn remotes_are_named_once_each() {
    let branches = vec![
        ("a".to_string(), "origin/a".to_string()),
        ("b".to_string(), "fork/b".to_string()),
        ("c".to_string(), "origin/c/d".to_string()),
        ("d".to_string(), "local".to_string()),
    ];
    assert_eq!(remote_names(&branches), vec!["origin", "fork"]);
}

#[test]
fn a_walk_yields_the_holders_of_markers() {
    let entry = |parent: Option<&str>, name: Option<&str>, is_dir: bool| WalkEntry {
        parent: parent.map(|s| s.to_string()),
        name: name.map(|s| s.to_string()),
        is_dir,
    };
    let entries = vec![
        entry(None, Some("root"), true),
        entry(Some("/root/a"), Some(".git"), true),
        entry(Some("/root/b"), Some(".git"), false),
        entry(Some("/root/c"), Some("src"), true),
        entry(None, Some(".git"), true),
        entry(Some("/root/d"), Some(".git"), true),
    ];
    assert_eq!(repos_in_walk(&entries), vec!["/root/a", "/root/d"]);
}

#[test]
fn a_repository_found_twice_is_listed_once() {
    let mut found = vec!["/root/a".to_string()];
    merge_discovered(&mut found, vec!["/root/b".to_string(), "/root/a".to_string(), "/root/b".to_string()]);
    assert_eq!(found, vec!["/root/a", "/root/b"]);
}

#[test]
fn sorting_is_stable() {
    let handle = |path: &str, name: &str| RepoHandle { path: path.to_string(), name: name.to_string() };
    let mut handles = vec![handle("/2/b", "b"), handle("/1/a", "a"), handle("/3/b", "b"), handle("/0/a", "a")];
    sort_by(&mut handles, &ByName);
    let paths: Vec<&str> = handles.iter().map(|h| h.path.as_str()).collect();
    assert_eq!(paths, vec!["/1/a", "/0/a", "/2/b", "/3/b"]);
}
