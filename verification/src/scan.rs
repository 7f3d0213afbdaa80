//! Discovery: the repositories under a list of search roots.

use vstd::prelude::*;
use crate::paths::path_file_name;
use crate::order::{compare_text, keys_before, sort_by, sorted_by, texts, Order};
use crate::text::holds_text;
use crate::system::{FsOps, WalkEntry, WalkEntryView};
use crate::types::views;

verus! {

/// Whether a walk entry marks a repository: it is a directory named `.git`
/// that stands inside some directory.
pub open spec fn marks_repo(e: WalkEntryView) -> bool {
    e.is_dir && e.name == Some(".git"@) && e.parent is Some
}

/// The repositories that a walk came by: the directories that hold a marker,
/// in the order of the walk.
pub open spec fn repos_in(entries: Seq<WalkEntryView>) -> Seq<Seq<char>>
    decreases entries.len(),
{
    if entries.len() == 0 {
        Seq::empty()
    } else if marks_repo(entries.last()) {
        repos_in(entries.drop_last()).push(entries.last().parent->0)
    } else {
        repos_in(entries.drop_last())
    }
}

/// Computes `repos_in`.
pub fn repos_in_walk(entries: &Vec<WalkEntry>) -> (r: Vec<String>)
    ensures
        views(r@) == repos_in(views(entries@)),
{
    let ghost es = views(entries@);
    let mut r: Vec<String> = Vec::new();
    let mut i: usize = 0;
    proof {
        assert(es.take(0) =~= Seq::<WalkEntryView>::empty());
        assert(views(r@) =~= Seq::<Seq<char>>::empty());
    }
    while i < entries.len()
        invariant
            i <= entries.len(),
            es == views(entries@),
            views(r@) == repos_in(es.take(i as int)),
        decreases entries.len() - i,
    {
        let entry = &entries[i];
        proof {
            assert(es.take(i + 1).drop_last() =~= es.take(i as int));
            assert(es.take(i + 1).last() == entry@);
        }
        if entry.is_dir {
            match (&entry.name, &entry.parent) {
                (Some(name), Some(parent)) => {
                    if compare_text(name.as_str(), ".git") == 0 {
                        let ghost before = views(r@);
                        r.push(parent.clone());
                        assert(views(r@) =~= before.push(parent@));
                    }
                },
                _ => {},
            }
        }
        i += 1;
    }
    assert(es.take(entries.len() as int) =~= es);
    r
}

/// `found` with the paths of `more` that it does not hold yet, each once, in
/// the order in which they come.
pub open spec fn merged(found: Seq<Seq<char>>, more: Seq<Seq<char>>) -> Seq<Seq<char>>
    decreases more.len(),
{
    if more.len() == 0 {
        found
    } else {
        let so_far = merged(found, more.drop_last());
        if so_far.contains(more.last()) {
            so_far
        } else {
            so_far.push(more.last())
        }
    }
}

/// Merging keeps a list free of repetitions, keeps what it held, and takes
/// in every path that is offered: a repository that is found twice, as a
/// search root and on a walk, is listed once.
pub proof fn lemma_merged(found: Seq<Seq<char>>, more: Seq<Seq<char>>)
    requires
        found.no_duplicates(),
    ensures
        merged(found, more).no_duplicates(),
        forall|p: Seq<char>| found.contains(p) ==> #[trigger] merged(found, more).contains(p),
        forall|p: Seq<char>| more.contains(p) ==> #[trigger] merged(found, more).contains(p),
        forall|p: Seq<char>| #[trigger]
            merged(found, more).contains(p) ==> found.contains(p) || more.contains(p),
    decreases more.len(),
{
    if more.len() > 0 {
        let init = more.drop_last();
        let so_far = merged(found, init);
        let last = more.last();
        let all = merged(found, more);
        lemma_merged(found, init);
        assert forall|p: Seq<char>| found.contains(p) implies #[trigger] all.contains(p) by {
            assert(so_far.contains(p));
            let k = choose|k: int| 0 <= k < so_far.len() && so_far[k] == p;
            assert(all[k] == p);
        }
        assert forall|p: Seq<char>| more.contains(p) implies #[trigger] all.contains(p) by {
            let k = choose|k: int| 0 <= k < more.len() && more[k] == p;
            if k < init.len() {
                assert(init[k] == p);
                assert(init.contains(p));
                assert(so_far.contains(p));
                let m = choose|m: int| 0 <= m < so_far.len() && so_far[m] == p;
                assert(all[m] == p);
            } else {
                assert(p == last);
                if !so_far.contains(last) {
                    assert(all[so_far.len() as int] == last);
                }
            }
        }
        assert forall|p: Seq<char>| #[trigger] all.contains(p) implies found.contains(p)
            || more.contains(p) by {
            let k = choose|k: int| 0 <= k < all.len() && all[k] == p;
            if k < so_far.len() {
                assert(so_far[k] == p);
                assert(so_far.contains(p));
                if init.contains(p) {
                    let m = choose|m: int| 0 <= m < init.len() && init[m] == p;
                    assert(more[m] == p);
                }
            } else {
                assert(more[more.len() - 1] == p);
            }
        }
    }
}

/// Takes into `found` the paths of `more` that it does not hold yet.
pub fn merge_discovered(found: &mut Vec<String>, more: Vec<String>)
    ensures
        views(final(found)@) == merged(views(old(found)@), views(more@)),
{
    let ghost start = views(found@);
    let ghost ms = views(more@);
    let mut rest = more;
    let total = rest.len();
    let mut done: usize = 0;
    proof {
        assert(ms.take(0) =~= Seq::<Seq<char>>::empty());
        assert(ms.skip(0) =~= ms);
    }
    while done < total
        invariant
            done <= total == ms.len(),
            rest.len() == total - done,
            views(rest@) == ms.skip(done as int),
            views(found@) == merged(start, ms.take(done as int)),
        decreases total - done,
    {
        let path = rest.remove(0);
        proof {
            assert(path@ == ms.skip(done as int)[0]);
            assert forall|k: int| 0 <= k < rest@.len() implies views(rest@)[k] == ms.skip(done + 1)[k] by {
                assert(views(rest@)[k] == ms.skip(done as int)[k + 1]);
            }
            assert(views(rest@) =~= ms.skip(done + 1));
            assert(ms.take(done + 1).drop_last() =~= ms.take(done as int));
            assert(ms.take(done + 1).last() == path@);
        }
        if !holds_text(found, path.as_str()) {
            let ghost before = views(found@);
            found.push(path);
            assert(views(found@) =~= before.push(path@));
        }
        done += 1;
    }
    assert(ms.take(total as int) =~= ms);
}

/// A repository: where it is, and the name it goes by.
#[derive(Debug, Clone)]
pub struct RepoHandle {
    pub path: String,
    /// The last component of the path; empty where the path has none.
    pub name: String,
}

pub struct RepoHandleView {
    pub path: Seq<char>,
    pub name: Seq<char>,
}

impl View for RepoHandle {
    type V = RepoHandleView;

    open spec fn view(&self) -> RepoHandleView {
        RepoHandleView { path: self.path@, name: self.name@ }
    }
}

/// Orders repositories by name.
pub struct ByName;

impl Order<RepoHandle> for ByName {
    open spec fn key(&self, item: RepoHandleView) -> Seq<Seq<char>> {
        seq![item.name]
    }

    fn before(&self, a: &RepoHandle, b: &RepoHandle) -> (r: bool) {
        let ka = [a.name.as_str()];
        let kb = [b.name.as_str()];
        assert(texts(ka@) =~= self.key(a@));
        assert(texts(kb@) =~= self.key(b@));
        keys_before(&ka, &kb)
    }
}

/// The paths of the handles.
pub open spec fn handle_paths(handles: Seq<RepoHandleView>) -> Seq<Seq<char>> {
    handles.map_values(|h: RepoHandleView| h.path)
}

/// The name that a repository goes by, given the last component of its
/// path: that component, or nothing where the path has none.
pub open spec fn name_of(file_name: Option<Seq<char>>) -> Seq<char> {
    match file_name {
        Some(name) => name,
        None => Seq::empty(),
    }
}

/// Computes `name_of`.
pub fn name_from(file_name: Option<String>) -> (r: String)
    ensures
        r@ == name_of(crate::types::opt_text(file_name)),
{
    match file_name {
        Some(name) => name,
        None => String::new(),
    }
}

/// The name that the repository at `path` goes by: the last component of
/// the path, which is asked of the standard library, or nothing.
fn repo_name(path: &str) -> (r: String) {
    name_from(path_file_name(path))
}

/// What the file system said of one search root.
pub struct RootAnswer {
    /// The root with its home-directory marker expanded.
    pub expanded: Seq<char>,
    /// Whether anything is there.
    pub present: bool,
    /// Whether the root is itself a repository.
    pub is_repo: bool,
    /// What a walk from the root came by.
    pub walk: Seq<WalkEntryView>,
}

/// The repositories that one search root yields: none where nothing is
/// there, the root itself where it is a repository, and otherwise the
/// repositories that the walk came by.
pub open spec fn root_yield(a: RootAnswer) -> Seq<Seq<char>> {
    if !a.present {
        Seq::empty()
    } else if a.is_repo {
        seq![a.expanded]
    } else {
        repos_in(a.walk)
    }
}

/// The repositories that the search roots yield together, each once, in the
/// order in which they are first found.
pub open spec fn found_under(answers: Seq<RootAnswer>) -> Seq<Seq<char>>
    decreases answers.len(),
{
    if answers.len() == 0 {
        Seq::empty()
    } else {
        merged(found_under(answers.drop_last()), root_yield(answers.last()))
    }
}

/// The handles of the repositories at `paths` that go by `names`.
pub open spec fn with_names(paths: Seq<Seq<char>>, names: Seq<Seq<char>>) -> Seq<RepoHandleView> {
    Seq::new(paths.len(), |i: int| RepoHandleView { path: paths[i], name: names[i] })
}

/// The number of levels that a walk goes down for a search of the depth
/// `depth`: one more, for the marker inside the deepest repository.
pub open spec fn walk_depth(depth: usize) -> usize {
    if depth == usize::MAX {
        usize::MAX
    } else {
        (depth + 1) as usize
    }
}

/// Whether `a` is a way for the file system to answer for the search root
/// `root`: the root is expanded, and the expanded root is asked after; a
/// root that is there is asked whether it is a repository, and one that is
/// none is walked.
pub open spec fn root_answered<F: FsOps>(fs: F, root: Seq<char>, depth: usize, a: RootAnswer) -> bool {
    &&& fs.may_expand(root, a.expanded)
    &&& fs.may_exist(a.expanded, a.present)
    &&& a.present ==> fs.may_be_repo(a.expanded, a.is_repo)
    &&& a.present && !a.is_repo ==> fs.may_walk(a.expanded, walk_depth(depth), a.walk)
}

/// Whether `handles` are what a discovery under `roots` returns when the
/// file system answers as `answers` say and the repositories found go by
/// `names`: the repositories found, in ascending order of their names.
pub open spec fn is_discovery<F: FsOps>(
    fs: F,
    roots: Seq<Seq<char>>,
    depth: usize,
    handles: Seq<RepoHandleView>,
    answers: Seq<RootAnswer>,
    names: Seq<Seq<char>>,
) -> bool {
    &&& answers.len() == roots.len()
    &&& forall|i: int| 0 <= i < roots.len() ==> root_answered(fs, roots[i], depth, #[trigger] answers[i])
    &&& names.len() == found_under(answers).len()
    &&& handles == sorted_by::<RepoHandle, ByName>(ByName, with_names(found_under(answers), names))
}

/// What is found has no repetitions, and holds whatever any root yields.
pub proof fn lemma_found_under(answers: Seq<RootAnswer>)
    ensures
        found_under(answers).no_duplicates(),
        forall|i: int, p: Seq<char>|
            0 <= i < answers.len() && root_yield(#[trigger] answers[i]).contains(p)
                ==> #[trigger] found_under(answers).contains(p),
    decreases answers.len(),
{
    if answers.len() > 0 {
        let init = answers.drop_last();
        lemma_found_under(init);
        lemma_merged(found_under(init), root_yield(answers.last()));
        assert forall|i: int, p: Seq<char>|
            0 <= i < answers.len() && root_yield(#[trigger] answers[i]).contains(
                p,
            ) implies #[trigger] found_under(answers).contains(p) by {
            if i < init.len() {
                assert(init[i] == answers[i]);
                assert(found_under(init).contains(p));
            } else {
                assert(answers[i] == answers.last());
            }
        }
    }
}

/// Every holder of a marker that a walk came by is among its repositories.
pub proof fn lemma_repos_in(entries: Seq<WalkEntryView>, k: int)
    requires
        0 <= k < entries.len(),
        marks_repo(entries[k]),
    ensures
        repos_in(entries).contains(entries[k].parent->0),
    decreases entries.len(),
{
    let all = repos_in(entries);
    if k == entries.len() - 1 {
        assert(all[all.len() - 1] == entries[k].parent->0);
    } else {
        let init = entries.drop_last();
        assert(init[k] == entries[k]);
        lemma_repos_in(init, k);
        let x = choose|x: int| 0 <= x < repos_in(init).len() && repos_in(init)[x] == entries[k].parent->0;
        assert(all[x] == repos_in(init)[x]);
    }
}

/// A repository that is a search root and is also come by on a walk from
/// another root is found once: both roots yield the same path, and what is
/// found holds no path twice.
pub proof fn lemma_root_repo_is_found_once(answers: Seq<RootAnswer>, i: int, j: int, k: int)
    requires
        0 <= i < answers.len(),
        0 <= j < answers.len(),
        answers[i].present && answers[i].is_repo,
        answers[j].present && !answers[j].is_repo,
        0 <= k < answers[j].walk.len(),
        marks_repo(answers[j].walk[k]),
        answers[j].walk[k].parent == Some(answers[i].expanded),
    ensures
        root_yield(answers[i]) == seq![answers[i].expanded],
        root_yield(answers[j]).contains(answers[i].expanded),
        found_under(answers).contains(answers[i].expanded),
        found_under(answers).no_duplicates(),
{
    lemma_found_under(answers);
    lemma_repos_in(answers[j].walk, k);
}

/// Merging in paths that are all held already changes nothing.
pub proof fn lemma_merged_held(found: Seq<Seq<char>>, more: Seq<Seq<char>>)
    requires
        forall|i: int| 0 <= i < more.len() ==> found.contains(#[trigger] more[i]),
    ensures
        merged(found, more) == found,
    decreases more.len(),
{
    if more.len() > 0 {
        let init = more.drop_last();
        assert forall|i: int| 0 <= i < init.len() implies found.contains(#[trigger] init[i]) by {
            assert(init[i] == more[i]);
        }
        lemma_merged_held(found, init);
        assert(found.contains(more[more.len() - 1]));
    }
}

/// A search root inside another adds nothing: where a repository is a
/// search root, and a root before it is walked and comes by it, the
/// repositories found are those found without the inner root, in the same
/// order. With the same names they are listed alike.
pub proof fn lemma_inner_root_adds_nothing(
    answers: Seq<RootAnswer>,
    inner: RootAnswer,
    j: int,
    k: int,
    names: Seq<Seq<char>>,
)
    requires
        inner.present && inner.is_repo,
        0 <= j < answers.len(),
        answers[j].present && !answers[j].is_repo,
        0 <= k < answers[j].walk.len(),
        marks_repo(answers[j].walk[k]),
        answers[j].walk[k].parent == Some(inner.expanded),
    ensures
        found_under(answers.push(inner)) == found_under(answers),
        sorted_by::<RepoHandle, ByName>(
            ByName,
            with_names(found_under(answers.push(inner)), names),
        ) == sorted_by::<RepoHandle, ByName>(ByName, with_names(found_under(answers), names)),
{
    lemma_found_under(answers);
    lemma_repos_in(answers[j].walk, k);
    assert(root_yield(answers[j]).contains(inner.expanded));
    assert(found_under(answers).contains(inner.expanded));
    let more = root_yield(inner);
    assert forall|i: int| 0 <= i < more.len() implies found_under(answers).contains(
        #[trigger] more[i],
    ) by {
        assert(more[i] == inner.expanded);
    }
    lemma_merged_held(found_under(answers), more);
    assert(answers.push(inner).drop_last() =~= answers);
}

/// The repositories under the search roots, each with its name.
///
/// Each root has its home-directory marker expanded; a root that does not
/// exist is passed over. A root that is a repository is taken as it is.
/// Any other is walked, down to `depth` levels below it, and every directory
/// that holds a marker is taken. No repository is listed twice, and the list
/// is in ascending order of the names.
pub fn discover<F: FsOps>(fs: &F, roots: &Vec<String>, depth: usize) -> (r: Vec<RepoHandle>)
    ensures
        exists|answers: Seq<RootAnswer>, names: Seq<Seq<char>>| #[trigger]
            is_discovery(*fs, views(roots@), depth, views(r@), answers, names),
        handle_paths(views(r@)).no_duplicates(),
        crate::order::ordered::<RepoHandle, ByName>(ByName, views(r@)),
{
    let mut found: Vec<String> = Vec::new();
    let ghost mut answers: Seq<RootAnswer> = Seq::empty();
    let mut i: usize = 0;
    assert(views(found@) =~= Seq::<Seq<char>>::empty());
    while i < roots.len()
        invariant
            i <= roots.len(),
            answers.len() == i,
            views(found@) == found_under(answers),
            forall|k: int|
                0 <= k < i ==> root_answered(*fs, views(roots@)[k], depth, #[trigger] answers[k]),
        decreases roots.len() - i,
    {
        let ghost before = answers;
        let root = fs.expand_tilde(roots[i].as_str());
        let ghost expanded = root@;
        if fs.path_exists(root.as_str()) {
            let is_repo = fs.is_repo(root.as_str());
            let ghost mut walk: Seq<WalkEntryView> = Seq::empty();
            let more = if is_repo {
                let mut one: Vec<String> = Vec::new();
                one.push(root);
                assert(views(one@) =~= seq![expanded]);
                one
            } else {
                let entries = fs.walk(root.as_str(), depth.saturating_add(1));
                proof {
                    walk = views(entries@);
                }
                repos_in_walk(&entries)
            };
            proof {
                let answer = RootAnswer { expanded, present: true, is_repo, walk };
                answers = before.push(answer);
                assert(answers.drop_last() =~= before);
                assert(views(more@) == root_yield(answer));
                assert(root_answered(*fs, views(roots@)[i as int], depth, answer));
            }
            merge_discovered(&mut found, more);
        } else {
            proof {
                let answer = RootAnswer {
                    expanded,
                    present: false,
                    is_repo: false,
                    walk: Seq::empty(),
                };
                answers = before.push(answer);
                assert(answers.drop_last() =~= before);
                assert(root_answered(*fs, views(roots@)[i as int], depth, answer));
            }
        }
        proof {
            assert forall|k: int| 0 <= k < i + 1 implies root_answered(
                *fs,
                views(roots@)[k],
                depth,
                #[trigger] answers[k],
            ) by {
                if k < i {
                    assert(answers[k] == before[k]);
                }
            }
        }
        i += 1;
    }
    let ghost paths = views(found@);
    let mut handles: Vec<RepoHandle> = Vec::new();
    let mut j: usize = 0;
    assert(handle_paths(views(handles@)) =~= paths.take(0));
    while j < found.len()
        invariant
            j <= found.len(),
            handles.len() == j,
            paths == views(found@),
            handle_paths(views(handles@)) == paths.take(j as int),
        decreases found.len() - j,
    {
        let ghost before = views(handles@);
        let path = found[j].clone();
        let name = repo_name(path.as_str());
        let handle = RepoHandle { path, name };
        let ghost added = handle@;
        handles.push(handle);
        proof {
            assert(views(handles@) =~= before.push(added));
            assert(handle_paths(views(handles@)) =~= handle_paths(before).push(paths[j as int]));
            assert(paths.take(j + 1) =~= paths.take(j as int).push(paths[j as int]));
        }
        j += 1;
    }
    assert(paths.take(found.len() as int) =~= paths);
    let ghost unsorted = views(handles@);
    sort_by(&mut handles, &ByName);
    proof {
        lemma_found_under(answers);
        crate::order::lemma_sorted_by::<RepoHandle, ByName>(ByName, unsorted);
        lemma_paths_stay_distinct(unsorted, views(handles@));
        let names = unsorted.map_values(|h: RepoHandleView| h.name);
        assert(unsorted =~= with_names(paths, names)) by {
            assert forall|x: int| 0 <= x < unsorted.len() implies unsorted[x] == with_names(
                paths,
                names,
            )[x] by {
                assert(handle_paths(unsorted)[x] == paths[x]);
            }
        }
        assert(is_discovery(*fs, views(roots@), depth, views(handles@), answers, names));
    }
    handles
}

/// Rearranging handles with distinct paths leaves the paths distinct.
pub proof fn lemma_paths_stay_distinct(a: Seq<RepoHandleView>, b: Seq<RepoHandleView>)
    requires
        handle_paths(a).no_duplicates(),
        a.to_multiset() == b.to_multiset(),
    ensures
        handle_paths(b).no_duplicates(),
{
    broadcast use vstd::seq_lib::to_multiset_contains;

    a.to_multiset_ensures();
    b.to_multiset_ensures();
    assert(a.len() == b.len());
    assert forall|i: int, j: int| 0 <= i < b.len() && 0 <= j < b.len() && i != j implies handle_paths(
        b,
    )[i] != handle_paths(b)[j] by {
        if b[i].path == b[j].path {
            // both stand in `a`, where equal paths mean one position
            assert(b.contains(b[i]));
            assert(b.contains(b[j]));
            assert(a.to_multiset().count(b[i]) > 0);
            assert(a.to_multiset().count(b[j]) > 0);
            assert(a.contains(b[i]));
            assert(a.contains(b[j]));
            let x = choose|x: int| 0 <= x < a.len() && a[x] == b[i];
            let y = choose|y: int| 0 <= y < a.len() && a[y] == b[j];
            assert(handle_paths(a)[x] == handle_paths(a)[y]);
            assert(x == y);
            // so the two are one handle, which `b` holds twice and `a` once
            assert(b[i] == b[j]);
            crate::order::lemma_counted_twice(b, i, j);
            lemma_count_one(a, x);
        }
    }
}

/// A handle whose path no other handle shares is counted once.
proof fn lemma_count_one(s: Seq<RepoHandleView>, x: int)
    requires
        0 <= x < s.len(),
        handle_paths(s).no_duplicates(),
    ensures
        s.to_multiset().count(s[x]) == 1,
    decreases s.len(),
{
    broadcast use vstd::seq_lib::to_multiset_build, vstd::seq_lib::to_multiset_contains;

    let last = s.len() - 1;
    let init = s.drop_last();
    assert(s =~= init.push(s.last()));
    assert forall|i: int, j: int| 0 <= i < init.len() && 0 <= j < init.len() && i != j implies handle_paths(
        init,
    )[i] != handle_paths(init)[j] by {
        assert(handle_paths(init)[i] == handle_paths(s)[i]);
        assert(handle_paths(init)[j] == handle_paths(s)[j]);
    }
    if x == last {
        if init.contains(s[x]) {
            let k = choose|k: int| 0 <= k < init.len() && init[k] == s[x];
            assert(handle_paths(s)[k] == handle_paths(s)[x]);
        }
        assert(init.to_multiset().count(s[x]) == 0);
    } else {
        lemma_count_one(init, x);
        assert(handle_paths(s)[x] != handle_paths(s)[last]);
    }
}

/// The paths of the repositories under the search roots, in ascending order
/// of their names, none twice.
pub fn find_repos<F: FsOps>(fs: &F, roots: &Vec<String>, depth: usize) -> (r: Vec<String>)
    ensures
        exists|handles: Seq<RepoHandleView>, answers: Seq<RootAnswer>, names: Seq<Seq<char>>|
            #[trigger] is_discovery(*fs, views(roots@), depth, handles, answers, names) && views(
                r@,
            ) == handle_paths(handles),
        views(r@).no_duplicates(),
{
    let handles = discover(fs, roots, depth);
    let ghost paths = handle_paths(views(handles@));
    let mut r: Vec<String> = Vec::new();
    let mut i: usize = 0;
    assert(views(r@) =~= paths.take(0));
    while i < handles.len()
        invariant
            i <= handles.len(),
            paths == handle_paths(views(handles@)),
            views(r@) == paths.take(i as int),
        decreases handles.len() - i,
    {
        let ghost before = views(r@);
        r.push(handles[i].path.clone());
        assert(views(r@) =~= before.push(paths[i as int]));
        assert(paths.take(i + 1) =~= paths.take(i as int).push(paths[i as int]));
        i += 1;
    }
    assert(paths.take(handles.len() as int) =~= paths);
    r
}

} // verus!
