//! Which repositories are audited against which: the configured endpoints,
//! grouped into pairs by their match key.

use vstd::prelude::*;
use crate::git_rewrite::error::GitRewriteError;
use crate::order::{compare_text, keys_before, sort_by, sorted_by, texts, Order};
use crate::text::{decimal, push_char, push_decimal, push_str};
use crate::types::views;

verus! {

/// The side of a pair that an endpoint stands on.
#[derive(Debug, Clone, Copy, PartialEq, Eq, Structural)]
pub enum RepoType {
    Source,
    Target,
}

/// One configured endpoint, as written.
#[derive(Debug, Clone)]
pub struct RepoSpec {
    pub repository_path: String,
    pub repository_branch: String,
    /// What pairs this endpoint with another.
    pub match_key: String,
    pub repo_type: RepoType,
    /// Whether the pair of this endpoint is left out of the audit.
    pub ignore: bool,
}

pub struct RepoSpecView {
    pub path: Seq<char>,
    pub branch: Seq<char>,
    pub key: Seq<char>,
    pub repo_type: RepoType,
    pub ignore: bool,
}

impl View for RepoSpec {
    type V = RepoSpecView;

    open spec fn view(&self) -> RepoSpecView {
        RepoSpecView {
            path: self.repository_path@,
            branch: self.repository_branch@,
            key: self.match_key@,
            repo_type: self.repo_type,
            ignore: self.ignore,
        }
    }
}

/// The configuration: the endpoints in the order in which they are written.
#[derive(Debug, Clone)]
pub struct GitRewriteConfig {
    pub repos: Vec<RepoSpec>,
}

impl View for GitRewriteConfig {
    type V = Seq<RepoSpecView>;

    open spec fn view(&self) -> Seq<RepoSpecView> {
        views(self.repos@)
    }
}

/// A match key as it may be written: a text or a whole number.
#[derive(Debug, Clone)]
pub enum MatchKey {
    Text(String),
    Number(i64),
}

/// The decimal numeral of a whole number, with a minus sign where it is negative.
pub open spec fn signed_decimal(n: int) -> Seq<char> {
    if n < 0 {
        seq!['-'] + decimal((-n) as nat)
    } else {
        decimal(n as nat)
    }
}

/// The text that a match key is known by.
pub open spec fn match_key_text(key: MatchKey) -> Seq<char> {
    match key {
        MatchKey::Text(s) => s@,
        MatchKey::Number(n) => signed_decimal(n as int),
    }
}

/// Brings a match key to the one form that keys are compared in: a text as
/// it stands, a number as its decimal numeral.
pub fn match_key_to_string(key: &MatchKey) -> (r: String)
    ensures
        r@ == match_key_text(*key),
{
    match key {
        MatchKey::Text(s) => s.clone(),
        MatchKey::Number(n) => {
            let mut out = String::new();
            if *n < 0 {
                push_char(&mut out, '-');
                let magnitude: u64 = ((-(*n + 1)) as u64) + 1;
                push_decimal(&mut out, magnitude);
                assert(out@ =~= signed_decimal(*n as int));
            } else {
                push_decimal(&mut out, *n as u64);
                assert(out@ =~= signed_decimal(*n as int));
            }
            out
        },
    }
}

/// An ignore flag as it may be written: left out, a truth value, or a number.
#[derive(Debug, Clone, Copy, PartialEq, Eq, Structural)]
pub enum IgnoreFlag {
    Absent,
    Flag(bool),
    Number(i64),
}

/// Whether a written ignore flag is set: a truth value counts as it stands,
/// of the numbers only one does, and a flag left out is not set.
pub open spec fn ignore_flag_set(flag: IgnoreFlag) -> bool {
    match flag {
        IgnoreFlag::Absent => false,
        IgnoreFlag::Flag(b) => b,
        IgnoreFlag::Number(n) => n == 1,
    }
}

/// Decides `ignore_flag_set`.
pub fn ignore_flag_value(flag: IgnoreFlag) -> (r: bool)
    ensures
        r == ignore_flag_set(flag),
{
    match flag {
        IgnoreFlag::Absent => false,
        IgnoreFlag::Flag(b) => b,
        IgnoreFlag::Number(n) => n == 1,
    }
}

/// One side of a pair: a repository and a branch in it.
#[derive(Debug, Clone)]
pub struct Endpoint {
    pub path: String,
    pub branch: String,
}

pub struct EndpointView {
    pub path: Seq<char>,
    pub branch: Seq<char>,
}

impl View for Endpoint {
    type V = EndpointView;

    open spec fn view(&self) -> EndpointView {
        EndpointView { path: self.path@, branch: self.branch@ }
    }
}

/// A source and a target that are audited against each other.
#[derive(Debug, Clone)]
pub struct RepoPair {
    pub key: String,
    pub source: Endpoint,
    pub target: Endpoint,
}

pub struct RepoPairView {
    pub key: Seq<char>,
    pub source: EndpointView,
    pub target: EndpointView,
}

impl View for RepoPair {
    type V = RepoPairView;

    open spec fn view(&self) -> RepoPairView {
        RepoPairView { key: self.key@, source: self.source@, target: self.target@ }
    }
}

/// The endpoints met so far under one match key.
#[derive(Debug)]
pub struct PairBuilder {
    pub key: String,
    pub source: Option<Endpoint>,
    pub target: Option<Endpoint>,
    pub ignored: bool,
    pub paths: Vec<String>,
}

pub struct GroupView {
    pub key: Seq<char>,
    pub source: Option<EndpointView>,
    pub target: Option<EndpointView>,
    pub ignored: bool,
    pub paths: Seq<Seq<char>>,
}

/// The view of an optional endpoint.
pub open spec fn opt_endpoint(e: Option<Endpoint>) -> Option<EndpointView> {
    match e {
        Some(e) => Some(e@),
        None => None,
    }
}

impl View for PairBuilder {
    type V = GroupView;

    open spec fn view(&self) -> GroupView {
        GroupView {
            key: self.key@,
            source: opt_endpoint(self.source),
            target: opt_endpoint(self.target),
            ignored: self.ignored,
            paths: views(self.paths@),
        }
    }
}

/// What is wrong with a configuration's pairing.
pub enum PairingFault {
    /// A second source under one key.
    DuplicateSource(Seq<char>),
    /// A second target under one key.
    DuplicateTarget(Seq<char>),
    /// A key that lacks its source or its target.
    Incomplete(Seq<char>),
}

/// What a pairing fault is reported as.
pub open spec fn fault_message(fault: PairingFault) -> Seq<char> {
    match fault {
        PairingFault::DuplicateSource(key) => "multiple source repos defined for match-key "@
            + key,
        PairingFault::DuplicateTarget(key) => "multiple target repos defined for match-key "@
            + key,
        PairingFault::Incomplete(key) => "match-key "@ + key
            + " must define both source and target repos"@,
    }
}

/// The position of the group with the given key, or the number of groups
/// where there is none.
pub open spec fn group_at(groups: Seq<GroupView>, key: Seq<char>) -> int
    decreases groups.len(),
{
    if groups.len() == 0 || groups[0].key == key {
        0
    } else {
        1 + group_at(groups.skip(1), key)
    }
}

/// `groups` with `g` at position `i`, which replaces the group there or, at
/// the end, is added.
pub open spec fn put_group(groups: Seq<GroupView>, i: int, g: GroupView) -> Seq<GroupView> {
    if 0 <= i < groups.len() {
        groups.update(i, g)
    } else {
        groups.push(g)
    }
}

/// The groups after one more endpoint. The endpoint's path is noted under
/// its key, and its ignore flag marks the whole group from here on. In a
/// group that is not marked the endpoint takes its side, which must be free.
pub open spec fn absorb(groups: Seq<GroupView>, e: RepoSpecView) -> Result<
    Seq<GroupView>,
    PairingFault,
> {
    let i = group_at(groups, e.key);
    let found = if 0 <= i < groups.len() {
        groups[i]
    } else {
        GroupView { key: e.key, source: None, target: None, ignored: false, paths: Seq::empty() }
    };
    let noted = GroupView {
        ignored: found.ignored || e.ignore,
        paths: found.paths.push(e.path),
        ..found
    };
    let endpoint = EndpointView { path: e.path, branch: e.branch };
    if noted.ignored {
        Ok(put_group(groups, i, noted))
    } else {
        match e.repo_type {
            RepoType::Source => if noted.source is Some {
                Err(PairingFault::DuplicateSource(e.key))
            } else {
                Ok(put_group(groups, i, GroupView { source: Some(endpoint), ..noted }))
            },
            RepoType::Target => if noted.target is Some {
                Err(PairingFault::DuplicateTarget(e.key))
            } else {
                Ok(put_group(groups, i, GroupView { target: Some(endpoint), ..noted }))
            },
        }
    }
}

/// The groups that the endpoints fall into, taken in order; the groups stand
/// in the order in which their keys first occur. The first fault ends it.
pub open spec fn grouped(specs: Seq<RepoSpecView>) -> Result<Seq<GroupView>, PairingFault>
    decreases specs.len(),
{
    if specs.len() == 0 {
        Ok(Seq::empty())
    } else {
        match grouped(specs.drop_last()) {
            Ok(groups) => absorb(groups, specs.last()),
            Err(fault) => Err(fault),
        }
    }
}

/// A fault among the first endpoints is the fault of the whole.
pub proof fn lemma_grouped_fault_stays(specs: Seq<RepoSpecView>, k: int)
    requires
        0 <= k <= specs.len(),
        grouped(specs.take(k)) is Err,
    ensures
        grouped(specs) == grouped(specs.take(k)),
    decreases specs.len() - k,
{
    if k < specs.len() {
        assert(specs.take(k + 1).drop_last() =~= specs.take(k));
        lemma_grouped_fault_stays(specs, k + 1);
    } else {
        assert(specs.take(k) =~= specs);
    }
}

/// What the pairing yields.
pub struct PairingView {
    /// The pairs.
    pub pairs: Seq<RepoPairView>,
    /// The paths of the endpoints that are audited.
    pub tracked_paths: Seq<Seq<char>>,
    /// The paths of the endpoints whose group is ignored.
    pub ignored_paths: Seq<Seq<char>>,
}

/// What the groups settle into, group by group in their order: an ignored
/// group gives up its paths as ignored; any other must be complete, and
/// gives a pair and the two paths of the pair as tracked.
pub open spec fn settled(groups: Seq<GroupView>) -> Result<PairingView, PairingFault>
    decreases groups.len(),
{
    if groups.len() == 0 {
        Ok(
            PairingView {
                pairs: Seq::empty(),
                tracked_paths: Seq::empty(),
                ignored_paths: Seq::empty(),
            },
        )
    } else {
        let g = groups.last();
        match settled(groups.drop_last()) {
            Err(fault) => Err(fault),
            Ok(so_far) => if g.ignored {
                Ok(PairingView { ignored_paths: so_far.ignored_paths + g.paths, ..so_far })
            } else {
                match (g.source, g.target) {
                    (Some(source), Some(target)) => Ok(
                        PairingView {
                            pairs: so_far.pairs.push(RepoPairView { key: g.key, source, target }),
                            tracked_paths: so_far.tracked_paths.push(source.path).push(
                                target.path,
                            ),
                            ..so_far
                        },
                    ),
                    _ => Err(PairingFault::Incomplete(g.key)),
                }
            },
        }
    }
}

/// A fault among the first groups is the fault of the whole.
pub proof fn lemma_settled_fault_stays(groups: Seq<GroupView>, k: int)
    requires
        0 <= k <= groups.len(),
        settled(groups.take(k)) is Err,
    ensures
        settled(groups) == settled(groups.take(k)),
    decreases groups.len() - k,
{
    if k < groups.len() {
        assert(groups.take(k + 1).drop_last() =~= groups.take(k));
        lemma_settled_fault_stays(groups, k + 1);
    } else {
        assert(groups.take(k) =~= groups);
    }
}

/// Orders pairs by their match key.
pub struct ByMatchKey;

impl Order<RepoPair> for ByMatchKey {
    open spec fn key(&self, item: RepoPairView) -> Seq<Seq<char>> {
        seq![item.key]
    }

    fn before(&self, a: &RepoPair, b: &RepoPair) -> (r: bool) {
        let ka = [a.key.as_str()];
        let kb = [b.key.as_str()];
        assert(texts(ka@) =~= self.key(a@));
        assert(texts(kb@) =~= self.key(b@));
        keys_before(&ka, &kb)
    }
}

/// The pairing of a configuration, before its pairs are put in order.
pub open spec fn pairing(specs: Seq<RepoSpecView>) -> Result<PairingView, PairingFault> {
    match grouped(specs) {
        Ok(groups) => settled(groups),
        Err(fault) => Err(fault),
    }
}

/// The pairs, the tracked paths and the ignored paths of a configuration.
#[derive(Debug)]
pub struct PairBuildOutput {
    pub pairs: Vec<RepoPair>,
    pub tracked_paths: Vec<String>,
    pub ignored_paths: Vec<String>,
}

impl View for PairBuildOutput {
    type V = PairingView;

    open spec fn view(&self) -> PairingView {
        PairingView {
            pairs: views(self.pairs@),
            tracked_paths: views(self.tracked_paths@),
            ignored_paths: views(self.ignored_paths@),
        }
    }
}

/// The pairing of a configuration with its pairs in ascending order of
/// their keys.
pub open spec fn ordered_pairing(specs: Seq<RepoSpecView>) -> Result<PairingView, PairingFault> {
    match pairing(specs) {
        Ok(p) => Ok(PairingView { pairs: sorted_by::<RepoPair, ByMatchKey>(ByMatchKey, p.pairs), ..p }),
        Err(fault) => Err(fault),
    }
}

/// Whether `r` reports the fault `fault` and nothing else.
pub open spec fn reports_fault<T>(r: Result<T, GitRewriteError>, fault: PairingFault) -> bool {
    r matches Err(GitRewriteError::InvalidConfig { message }) && message@ == fault_message(fault)
}

/// The error that reports a pairing fault.
fn fault_error(head: &str, key: &str, tail: &str) -> (e: GitRewriteError)
    ensures
        e matches GitRewriteError::InvalidConfig { message } && message@ == head@ + key@ + tail@,
{
    let mut message = String::new();
    push_str(&mut message, head);
    push_str(&mut message, key);
    push_str(&mut message, tail);
    assert(message@ =~= head@ + key@ + tail@);
    GitRewriteError::InvalidConfig { message }
}

/// The position of the group with the given key, or the number of groups.
fn find_group(groups: &Vec<PairBuilder>, key: &str) -> (i: usize)
    ensures
        i == group_at(views(groups@), key@),
        i <= groups.len(),
{
    let ghost gs = views(groups@);
    let mut i: usize = 0;
    assert(gs.skip(0) =~= gs);
    while i < groups.len()
        invariant
            i <= groups.len(),
            gs == views(groups@),
            group_at(gs, key@) == i + group_at(gs.skip(i as int), key@),
        decreases groups.len() - i,
    {
        assert(gs.skip(i as int)[0] == groups@[i as int]@);
        if compare_text(groups[i].key.as_str(), key) == 0 {
            return i;
        }
        assert(gs.skip(i as int).skip(1) =~= gs.skip(i + 1));
        i += 1;
    }
    i
}

/// Takes the endpoints into groups, one after the other.
fn group_entries(config: &GitRewriteConfig) -> (r: Result<Vec<PairBuilder>, GitRewriteError>)
    ensures
        match grouped(config@) {
            Ok(groups) => r is Ok && views(r->Ok_0@) == groups,
            Err(fault) => reports_fault(r, fault),
        },
{
    let ghost specs = config@;
    let mut groups: Vec<PairBuilder> = Vec::new();
    let mut i: usize = 0;
    assert(specs.take(0) =~= Seq::<RepoSpecView>::empty());
    assert(views(groups@) =~= Seq::<GroupView>::empty());
    while i < config.repos.len()
        invariant
            i <= config.repos.len(),
            specs == config@,
            grouped(specs.take(i as int)) == Ok::<Seq<GroupView>, PairingFault>(views(groups@)),
        decreases config.repos.len() - i,
    {
        let repo = &config.repos[i];
        let ghost e = repo@;
        let ghost before = views(groups@);
        proof {
            assert(specs.take(i + 1).drop_last() =~= specs.take(i as int));
            assert(specs.take(i + 1).last() == e);
        }
        let at = find_group(&groups, repo.match_key.as_str());
        let mut group = if at < groups.len() {
            groups.remove(at)
        } else {
            PairBuilder {
                key: repo.match_key.clone(),
                source: None,
                target: None,
                ignored: false,
                paths: Vec::new(),
            }
        };
        proof {
            if at < before.len() {
                assert(group@ == before[at as int]);
            } else {
                assert(group@.paths =~= Seq::<Seq<char>>::empty());
            }
        }
        let ghost found = group@;
        let ghost others = views(groups@);
        let ghost old_paths = group.paths@;
        group.paths.push(repo.repository_path.clone());
        assert(views(group.paths@) =~= views(old_paths).push(e.path));
        if repo.ignore {
            group.ignored = true;
        }
        if !group.ignored {
            let endpoint = Endpoint {
                path: repo.repository_path.clone(),
                branch: repo.repository_branch.clone(),
            };
            match repo.repo_type {
                RepoType::Source => {
                    if group.source.is_some() {
                        proof {
                            reveal_strlit("");
                            assert(absorb(before, e) == Err::<Seq<GroupView>, PairingFault>(
                                PairingFault::DuplicateSource(e.key),
                            ));
                            lemma_grouped_fault_stays(specs, i + 1);
                            assert(fault_message(PairingFault::DuplicateSource(e.key))
                                =~= "multiple source repos defined for match-key "@ + e.key + ""@);
                        }
                        return Err(
                            fault_error(
                                "multiple source repos defined for match-key ",
                                repo.match_key.as_str(),
                                "",
                            ),
                        );
                    }
                    group.source = Some(endpoint);
                },
                RepoType::Target => {
                    if group.target.is_some() {
                        proof {
                            reveal_strlit("");
                            assert(absorb(before, e) == Err::<Seq<GroupView>, PairingFault>(
                                PairingFault::DuplicateTarget(e.key),
                            ));
                            lemma_grouped_fault_stays(specs, i + 1);
                            assert(fault_message(PairingFault::DuplicateTarget(e.key))
                                =~= "multiple target repos defined for match-key "@ + e.key + ""@);
                        }
                        return Err(
                            fault_error(
                                "multiple target repos defined for match-key ",
                                repo.match_key.as_str(),
                                "",
                            ),
                        );
                    }
                    group.target = Some(endpoint);
                },
            }
        }
        let ghost placed = group@;
        groups.insert(at, group);
        proof {
            assert(views(groups@) =~= put_group(before, at as int, placed));
            assert(absorb(before, e) == Ok::<Seq<GroupView>, PairingFault>(views(groups@)));
        }
        i += 1;
    }
    assert(specs.take(config.repos.len() as int) =~= specs);
    Ok(groups)
}

/// Settles the groups into pairs, tracked paths and ignored paths.
fn settle_groups(groups: Vec<PairBuilder>) -> (r: Result<PairBuildOutput, GitRewriteError>)
    ensures
        match settled(views(groups@)) {
            Ok(p) => r is Ok && r->Ok_0@ == p,
            Err(fault) => reports_fault(r, fault),
        },
{
    let ghost gs = views(groups@);
    let mut out = PairBuildOutput {
        pairs: Vec::new(),
        tracked_paths: Vec::new(),
        ignored_paths: Vec::new(),
    };
    let mut rest = groups;
    let mut done: usize = 0;
    let total = rest.len();
    proof {
        assert(gs.take(0) =~= Seq::<GroupView>::empty());
        assert(out@.pairs =~= Seq::<RepoPairView>::empty());
        assert(out@.tracked_paths =~= Seq::<Seq<char>>::empty());
        assert(out@.ignored_paths =~= Seq::<Seq<char>>::empty());
        assert(gs.skip(0) =~= gs);
    }
    while done < total
        invariant
            done <= total == gs.len(),
            gs == views(groups@),
            rest.len() == total - done,
            views(rest@) == gs.skip(done as int),
            settled(gs.take(done as int)) == Ok::<PairingView, PairingFault>(out@),
        decreases total - done,
    {
        let ghost so_far = out@;
        let mut group = rest.remove(0);
        proof {
            assert(group@ == gs.skip(done as int)[0]);
            assert(gs.take(done + 1).drop_last() =~= gs.take(done as int));
            assert(gs.take(done + 1).last() == group@);
            assert forall|k: int| 0 <= k < rest@.len() implies views(rest@)[k] == gs.skip(
                done + 1,
            )[k] by {
                assert(views(rest@)[k] == gs.skip(done as int)[k + 1]);
            }
            assert(views(rest@) =~= gs.skip(done + 1));
        }
        let ghost g = group@;
        if group.ignored {
            let ghost old_ignored = out.ignored_paths@;
            let ghost added = group.paths@;
            let mut paths = group.paths;
            out.ignored_paths.append(&mut paths);
            assert(views(out.ignored_paths@) =~= views(old_ignored) + views(added));
        } else {
            match (group.source, group.target) {
                (Some(source), Some(target)) => {
                    let ghost old_tracked = out.tracked_paths@;
                    let ghost old_pairs = out.pairs@;
                    out.tracked_paths.push(source.path.clone());
                    out.tracked_paths.push(target.path.clone());
                    let pair = RepoPair { key: group.key, source, target };
                    out.pairs.push(pair);
                    proof {
                        assert(views(out.tracked_paths@) =~= views(old_tracked).push(
                            source.path@,
                        ).push(target.path@));
                        assert(views(out.pairs@) =~= views(old_pairs).push(pair@));
                    }
                },
                _ => {
                    proof {
                        assert(settled(gs.take(done + 1)) == Err::<PairingView, PairingFault>(
                            PairingFault::Incomplete(g.key),
                        ));
                        lemma_settled_fault_stays(gs, done + 1);
                    }
                    return Err(
                        fault_error(
                            "match-key ",
                            group.key.as_str(),
                            " must define both source and target repos",
                        ),
                    );
                },
            }
        }
        done += 1;
    }
    assert(gs.take(total as int) =~= gs);
    Ok(out)
}

/// Pairs the configured endpoints by their match keys.
///
/// The endpoints are taken in the order in which they are written. Each is
/// noted under its key; one that sets its ignore flag marks its whole group
/// as ignored from there on. In a group that is not marked, a second source
/// or a second target is a fault. When all are taken, every group that is not
/// ignored must hold both a source and a target, and gives a pair; the pairs
/// come out in ascending order of their keys. Every fault is reported as an
/// invalid configuration that names the key.
pub fn build_pairs_with_paths(config: &GitRewriteConfig) -> (r: Result<
    PairBuildOutput,
    GitRewriteError,
>)
    ensures
        match ordered_pairing(config@) {
            Ok(p) => r is Ok && r->Ok_0@ == p,
            Err(fault) => reports_fault(r, fault),
        },
{
    let groups = match group_entries(config) {
        Ok(groups) => groups,
        Err(e) => {
            return Err(e);
        },
    };
    let mut out = match settle_groups(groups) {
        Ok(out) => out,
        Err(e) => {
            return Err(e);
        },
    };
    sort_by(&mut out.pairs, &ByMatchKey);
    Ok(out)
}

/// The pairs of a configuration, in ascending order of their keys.
pub fn build_pairs(config: &GitRewriteConfig) -> (r: Result<Vec<RepoPair>, GitRewriteError>)
    ensures
        match ordered_pairing(config@) {
            Ok(p) => r is Ok && views(r->Ok_0@) == p.pairs,
            Err(fault) => reports_fault(r, fault),
        },
{
    match build_pairs_with_paths(config) {
        Ok(out) => Ok(out.pairs),
        Err(e) => Err(e),
    }
}

/// What the reconciliation needs of a configuration: the endpoints that are
/// audited, and the paths that are ignored.
#[derive(Debug)]
pub struct OtherReposSummary {
    pub tracked_endpoints: Vec<Endpoint>,
    pub ignored_paths: Vec<String>,
}

/// The endpoints of the pairs: of each pair in turn the source, then the target.
pub open spec fn endpoints_of(pairs: Seq<RepoPairView>) -> Seq<EndpointView>
    decreases pairs.len(),
{
    if pairs.len() == 0 {
        Seq::empty()
    } else {
        endpoints_of(pairs.drop_last()).push(pairs.last().source).push(pairs.last().target)
    }
}

/// The audited endpoints and the ignored paths of a configuration; the
/// endpoints follow the pairs in ascending order of their keys.
pub fn build_other_repos_summary(config: &GitRewriteConfig) -> (r: Result<
    OtherReposSummary,
    GitRewriteError,
>)
    ensures
        match ordered_pairing(config@) {
            Ok(p) => r is Ok && views(r->Ok_0.tracked_endpoints@) == endpoints_of(p.pairs)
                && views(r->Ok_0.ignored_paths@) == p.ignored_paths,
            Err(fault) => reports_fault(r, fault),
        },
{
    let out = match build_pairs_with_paths(config) {
        Ok(out) => out,
        Err(e) => {
            return Err(e);
        },
    };
    let ghost ps = views(out.pairs@);
    let mut tracked_endpoints: Vec<Endpoint> = Vec::new();
    let mut pairs = out.pairs;
    let total = pairs.len();
    let mut done: usize = 0;
    proof {
        assert(ps.skip(0) =~= ps);
        assert(ps.take(0) =~= Seq::<RepoPairView>::empty());
        assert(views(tracked_endpoints@) =~= Seq::<EndpointView>::empty());
    }
    while done < total
        invariant
            done <= total == ps.len(),
            pairs.len() == total - done,
            views(pairs@) == ps.skip(done as int),
            views(tracked_endpoints@) == endpoints_of(ps.take(done as int)),
        decreases total - done,
    {
        let ghost before = views(tracked_endpoints@);
        let pair = pairs.remove(0);
        proof {
            assert(pair@ == ps.skip(done as int)[0]);
            assert forall|k: int| 0 <= k < pairs@.len() implies views(pairs@)[k] == ps.skip(
                done + 1,
            )[k] by {
                assert(views(pairs@)[k] == ps.skip(done as int)[k + 1]);
            }
            assert(views(pairs@) =~= ps.skip(done + 1));
            assert(ps.take(done + 1).drop_last() =~= ps.take(done as int));
            assert(ps.take(done + 1).last() == pair@);
        }
        tracked_endpoints.push(pair.source);
        tracked_endpoints.push(pair.target);
        assert(views(tracked_endpoints@) =~= before.push(pair@.source).push(pair@.target));
        done += 1;
    }
    assert(ps.take(total as int) =~= ps);
    Ok(OtherReposSummary { tracked_endpoints, ignored_paths: out.ignored_paths })
}

/// Whether one of the first `n` endpoints has the key `key`.
pub open spec fn occurs_within(specs: Seq<RepoSpecView>, n: int, key: Seq<char>) -> bool {
    exists|k: int| 0 <= k < n && (#[trigger] specs[k]).key == key
}

/// Whether one of the first `n` endpoints has the key `key` and sets its
/// ignore flag.
pub open spec fn ignored_within(specs: Seq<RepoSpecView>, n: int, key: Seq<char>) -> bool {
    exists|k: int| 0 <= k < n && (#[trigger] specs[k]).key == key && specs[k].ignore
}

/// Whether one of the first `n` endpoints has the key `key` and stands on
/// the side `role`.
pub open spec fn has_role_within(
    specs: Seq<RepoSpecView>,
    n: int,
    key: Seq<char>,
    role: RepoType,
) -> bool {
    exists|k: int| 0 <= k < n && (#[trigger] specs[k]).key == key && specs[k].repo_type == role
}

/// Whether the group `g` says of its key what the first `n` endpoints say:
/// the key occurs; the group is ignored exactly if one of them says so; a
/// group that is not ignored has a source exactly if one of them is a source
/// under the key, and likewise a target; and the group has noted the path of
/// every one of them under the key.
pub open spec fn group_means(specs: Seq<RepoSpecView>, n: int, g: GroupView) -> bool {
    &&& occurs_within(specs, n, g.key)
    &&& g.ignored == ignored_within(specs, n, g.key)
    &&& !g.ignored ==> (g.source is Some <==> has_role_within(specs, n, g.key, RepoType::Source))
    &&& !g.ignored ==> (g.target is Some <==> has_role_within(specs, n, g.key, RepoType::Target))
    &&& forall|k: int|
        0 <= k < n && (#[trigger] specs[k]).key == g.key ==> g.paths.contains(specs[k].path)
}

/// Whether the groups are the groups of the first `n` endpoints: one group
/// for each key that occurs, each with the meaning of its key.
pub open spec fn groups_mean(specs: Seq<RepoSpecView>, n: int, groups: Seq<GroupView>) -> bool {
    &&& forall|i: int| 0 <= i < groups.len() ==> group_means(specs, n, #[trigger] groups[i])
    &&& forall|i: int, j: int|
        0 <= i < groups.len() && 0 <= j < groups.len() && i != j ==> (#[trigger] groups[i]).key
            != (#[trigger] groups[j]).key
    &&& forall|k: int|
        0 <= k < n ==> group_at(groups, (#[trigger] specs[k]).key) < groups.len()
}

/// `group_at` lands on the first group with the key, or at the end.
pub proof fn lemma_group_at(groups: Seq<GroupView>, key: Seq<char>)
    ensures
        0 <= group_at(groups, key) <= groups.len(),
        group_at(groups, key) < groups.len() ==> groups[group_at(groups, key)].key == key,
        forall|i: int| 0 <= i < group_at(groups, key) ==> (#[trigger] groups[i]).key != key,
    decreases groups.len(),
{
    if groups.len() != 0 && groups[0].key != key {
        lemma_group_at(groups.skip(1), key);
        assert forall|i: int| 0 <= i < group_at(groups, key) implies (#[trigger] groups[i]).key
            != key by {
            if i > 0 {
                assert(groups.skip(1)[i - 1] == groups[i]);
            }
        }
    }
}

/// Among groups with distinct keys, the group with a key is where `group_at` lands.
pub proof fn lemma_group_at_is(groups: Seq<GroupView>, i: int)
    requires
        0 <= i < groups.len(),
        forall|a: int, b: int|
            0 <= a < groups.len() && 0 <= b < groups.len() && a != b ==> (#[trigger] groups[a]).key
                != (#[trigger] groups[b]).key,
    ensures
        group_at(groups, groups[i].key) == i,
{
    lemma_group_at(groups, groups[i].key);
    let at = group_at(groups, groups[i].key);
    if at < i {
        assert(groups[at].key == groups[i].key);
    }
}

/// What one more endpoint adds to what is known of a key.
pub proof fn lemma_within_step(specs: Seq<RepoSpecView>, n: int, key: Seq<char>)
    requires
        0 <= n < specs.len(),
    ensures
        occurs_within(specs, n + 1, key) == (occurs_within(specs, n, key) || specs[n].key == key),
        ignored_within(specs, n + 1, key) == (ignored_within(specs, n, key) || (specs[n].key == key
            && specs[n].ignore)),
        has_role_within(specs, n + 1, key, RepoType::Source) == (has_role_within(
            specs,
            n,
            key,
            RepoType::Source,
        ) || (specs[n].key == key && specs[n].repo_type == RepoType::Source)),
        has_role_within(specs, n + 1, key, RepoType::Target) == (has_role_within(
            specs,
            n,
            key,
            RepoType::Target,
        ) || (specs[n].key == key && specs[n].repo_type == RepoType::Target)),
{
    if occurs_within(specs, n, key) {
        let k = choose|k: int| 0 <= k < n && (#[trigger] specs[k]).key == key;
        assert(0 <= k < n + 1 && specs[k].key == key);
    }
    if specs[n].key == key {
        assert(0 <= n < n + 1 && specs[n].key == key);
    }
    if ignored_within(specs, n, key) {
        let k = choose|k: int| 0 <= k < n && (#[trigger] specs[k]).key == key && specs[k].ignore;
        assert(0 <= k < n + 1 && specs[k].key == key && specs[k].ignore);
    }
    if has_role_within(specs, n, key, RepoType::Source) {
        let k = choose|k: int|
            0 <= k < n && (#[trigger] specs[k]).key == key && specs[k].repo_type
                == RepoType::Source;
        assert(0 <= k < n + 1 && specs[k].key == key && specs[k].repo_type == RepoType::Source);
    }
    if has_role_within(specs, n, key, RepoType::Target) {
        let k = choose|k: int|
            0 <= k < n && (#[trigger] specs[k]).key == key && specs[k].repo_type
                == RepoType::Target;
        assert(0 <= k < n + 1 && specs[k].key == key && specs[k].repo_type == RepoType::Target);
    }
}

/// One more endpoint keeps the meaning of a group with another key.
pub proof fn lemma_other_group_keeps_meaning(specs: Seq<RepoSpecView>, n: int, g: GroupView)
    requires
        0 <= n < specs.len(),
        group_means(specs, n, g),
        specs[n].key != g.key,
    ensures
        group_means(specs, n + 1, g),
{
    lemma_within_step(specs, n, g.key);
}

/// The groups of the first `n` endpoints, where these group without a fault,
/// have the meaning of their keys.
pub proof fn lemma_grouped_meaning(specs: Seq<RepoSpecView>, n: int)
    requires
        0 <= n <= specs.len(),
        grouped(specs.take(n)) is Ok,
    ensures
        groups_mean(specs, n, grouped(specs.take(n))->Ok_0),
    decreases n,
{
    if n > 0 {
        let m = n - 1;
        let e = specs[m];
        assert(specs.take(n).drop_last() =~= specs.take(m));
        assert(specs.take(n).last() == e);
        assert(grouped(specs.take(m)) is Ok);
        let before = grouped(specs.take(m))->Ok_0;
        let after = grouped(specs.take(n))->Ok_0;
        assert(absorb(before, e) == Ok::<Seq<GroupView>, PairingFault>(after));
        lemma_grouped_meaning(specs, m);
        lemma_group_at(before, e.key);
        lemma_within_step(specs, m, e.key);
        let at = group_at(before, e.key);
        let found = if 0 <= at < before.len() {
            before[at]
        } else {
            GroupView {
                key: e.key,
                source: None,
                target: None,
                ignored: false,
                paths: Seq::empty(),
            }
        };
        let placed = if at < before.len() {
            after[at]
        } else {
            after[before.len() as int]
        };
        assert(after == put_group(before, at, placed));
        assert(placed.key == e.key);
        assert(placed.paths == found.paths.push(e.path));
        assert(placed.ignored == (found.ignored || e.ignore));
        // the group that took the endpoint in
        if at == before.len() {
            // no group had the key, so no endpoint before had it
            if occurs_within(specs, m, e.key) {
                let k = choose|k: int| 0 <= k < m && (#[trigger] specs[k]).key == e.key;
                assert(group_at(before, specs[k].key) < before.len());
            }
            assert(!occurs_within(specs, m, e.key));
            assert(!ignored_within(specs, m, e.key));
            assert(!has_role_within(specs, m, e.key, RepoType::Source));
            assert(!has_role_within(specs, m, e.key, RepoType::Target));
        } else {
            assert(group_means(specs, m, before[at]));
        }
        assert forall|k: int| 0 <= k < n && (#[trigger] specs[k]).key == placed.key implies placed.paths.contains(
            specs[k].path,
        ) by {
            if k < m {
                assert(found.paths.contains(specs[k].path));
                let x = choose|x: int| 0 <= x < found.paths.len() && found.paths[x] == specs[k].path;
                assert(placed.paths[x] == specs[k].path);
            } else {
                assert(placed.paths[found.paths.len() as int] == e.path);
            }
        }
        assert(group_means(specs, n, placed));
        assert forall|i: int| 0 <= i < after.len() implies group_means(
            specs,
            n,
            #[trigger] after[i],
        ) by {
            if i != at {
                assert(after[i] == before[i]);
                assert(before[i].key != e.key) by {
                    if before[i].key == e.key {
                        lemma_group_at_is(before, i);
                    }
                }
                lemma_other_group_keeps_meaning(specs, m, before[i]);
            }
        }
        assert forall|i: int, j: int|
            0 <= i < after.len() && 0 <= j < after.len() && i != j implies (#[trigger] after[i]).key
            != (#[trigger] after[j]).key by {
            if i == at {
                if j < before.len() {
                    assert(after[j] == before[j]);
                    if before[j].key == e.key {
                        lemma_group_at_is(before, j);
                    }
                }
            } else if j == at {
                if i < before.len() {
                    assert(after[i] == before[i]);
                    if before[i].key == e.key {
                        lemma_group_at_is(before, i);
                    }
                }
            } else {
                assert(after[i] == before[i]);
                assert(after[j] == before[j]);
            }
        }
        assert forall|k: int| 0 <= k < n implies group_at(after, (#[trigger] specs[k]).key)
            < after.len() by {
            let key = specs[k].key;
            lemma_group_at(after, key);
            if key == e.key {
                assert(after[at].key == key);
            } else {
                let b = group_at(before, key);
                lemma_group_at(before, key);
                assert(b < before.len());
                assert(after[b] == before[b]);
            }
        }
    } else {
        assert(specs.take(0) =~= Seq::<RepoSpecView>::empty());
    }
}

/// A second endpoint on one side of a key is a fault, unless the key was
/// marked as ignored by then: the configuration is refused.
pub proof fn lemma_second_on_a_side_is_refused(specs: Seq<RepoSpecView>, i: int, j: int)
    requires
        0 <= i < j < specs.len(),
        specs[i].key == specs[j].key,
        specs[i].repo_type == specs[j].repo_type,
        !ignored_within(specs, j + 1, specs[j].key),
    ensures
        ordered_pairing(specs) is Err,
{
    let key = specs[j].key;
    if grouped(specs.take(j)) is Err {
        lemma_grouped_fault_stays(specs, j);
    } else {
        let groups = grouped(specs.take(j))->Ok_0;
        lemma_grouped_meaning(specs, j);
        lemma_group_at(groups, key);
        lemma_within_step(specs, j, key);
        let at = group_at(groups, key);
        assert(group_at(groups, specs[i].key) < groups.len());
        assert(group_means(specs, j, groups[at]));
        assert(has_role_within(specs, j, key, specs[j].repo_type)) by {
            assert(0 <= i < j && specs[i].key == key && specs[i].repo_type == specs[j].repo_type);
        }
        assert(specs.take(j + 1).drop_last() =~= specs.take(j));
        assert(specs.take(j + 1).last() == specs[j]);
        assert(absorb(groups, specs[j]) is Err);
        lemma_grouped_fault_stays(specs, j + 1);
    }
}

/// A group that is not ignored and lacks a side makes the settling fail.
pub proof fn lemma_incomplete_group_is_refused(groups: Seq<GroupView>, i: int)
    requires
        0 <= i < groups.len(),
        !groups[i].ignored,
        groups[i].source is None || groups[i].target is None,
    ensures
        settled(groups) is Err,
    decreases groups.len(),
{
    if i < groups.len() - 1 {
        assert(groups.drop_last()[i] == groups[i]);
        lemma_incomplete_group_is_refused(groups.drop_last(), i);
    }
}

/// A key that has endpoints on one side only, and is not ignored, is a
/// fault: the configuration is refused.
pub proof fn lemma_one_sided_key_is_refused(specs: Seq<RepoSpecView>, key: Seq<char>, role: RepoType)
    requires
        occurs_within(specs, specs.len() as int, key),
        !ignored_within(specs, specs.len() as int, key),
        !has_role_within(specs, specs.len() as int, key, role),
    ensures
        ordered_pairing(specs) is Err,
{
    assert(specs.take(specs.len() as int) =~= specs);
    if grouped(specs) is Ok {
        let groups = grouped(specs)->Ok_0;
        lemma_grouped_meaning(specs, specs.len() as int);
        let k = choose|k: int| 0 <= k < specs.len() && (#[trigger] specs[k]).key == key;
        lemma_group_at(groups, key);
        let at = group_at(groups, specs[k].key);
        assert(group_means(specs, specs.len() as int, groups[at]));
        lemma_incomplete_group_is_refused(groups, at);
    }
}

/// What the settling makes of groups: every pair has the key of a group that
/// is not ignored, and every path noted in an ignored group is among the
/// ignored paths.
pub proof fn lemma_settled_meaning(groups: Seq<GroupView>)
    requires
        settled(groups) is Ok,
    ensures
        forall|i: int|
            0 <= i < settled(groups)->Ok_0.pairs.len() ==> exists|g: int|
                0 <= g < groups.len() && !(#[trigger] groups[g]).ignored && groups[g].key == (
                #[trigger] settled(groups)->Ok_0.pairs[i]).key,
        forall|g: int, x: int|
            0 <= g < groups.len() && (#[trigger] groups[g]).ignored && 0 <= x < groups[g].paths.len()
                ==> settled(groups)->Ok_0.ignored_paths.contains(#[trigger] groups[g].paths[x]),
    decreases groups.len(),
{
    if groups.len() > 0 {
        let init = groups.drop_last();
        let last = groups.last();
        let so_far = settled(init)->Ok_0;
        let all = settled(groups)->Ok_0;
        lemma_settled_meaning(init);
        assert forall|i: int| 0 <= i < all.pairs.len() implies exists|g: int|
            0 <= g < groups.len() && !(#[trigger] groups[g]).ignored && groups[g].key == (
            #[trigger] all.pairs[i]).key by {
            if i < so_far.pairs.len() {
                assert(all.pairs[i] == so_far.pairs[i]);
                let g = choose|g: int|
                    0 <= g < init.len() && !(#[trigger] init[g]).ignored && init[g].key
                        == so_far.pairs[i].key;
                assert(groups[g] == init[g]);
            } else {
                assert(groups[groups.len() - 1] == last);
                assert(!groups[groups.len() - 1].ignored);
            }
        }
        assert forall|g: int, x: int|
            0 <= g < groups.len() && (#[trigger] groups[g]).ignored && 0 <= x
                < groups[g].paths.len() implies all.ignored_paths.contains(
            #[trigger] groups[g].paths[x],
        ) by {
            if g < init.len() {
                assert(init[g] == groups[g]);
                assert(so_far.ignored_paths.contains(init[g].paths[x]));
                let y = choose|y: int|
                    0 <= y < so_far.ignored_paths.len() && so_far.ignored_paths[y]
                        == groups[g].paths[x];
                assert(all.ignored_paths[y] == so_far.ignored_paths[y]);
            } else {
                assert(all.ignored_paths[so_far.ignored_paths.len() + x] == last.paths[x]);
            }
        }
    }
}

/// A key under which any endpoint sets its ignore flag is set aside: where
/// the configuration is accepted, no pair has the key, and the path of every
/// endpoint under the key is among the ignored paths.
pub proof fn lemma_ignored_key_is_set_aside(specs: Seq<RepoSpecView>, k: int)
    requires
        0 <= k < specs.len(),
        specs[k].ignore,
        ordered_pairing(specs) is Ok,
    ensures
        forall|i: int|
            0 <= i < ordered_pairing(specs)->Ok_0.pairs.len() ==> (
            #[trigger] ordered_pairing(specs)->Ok_0.pairs[i]).key != specs[k].key,
        forall|j: int|
            0 <= j < specs.len() && (#[trigger] specs[j]).key == specs[k].key
                ==> ordered_pairing(specs)->Ok_0.ignored_paths.contains(specs[j].path),
{
    broadcast use vstd::seq_lib::to_multiset_contains;

    let key = specs[k].key;
    let n = specs.len() as int;
    assert(specs.take(n) =~= specs);
    let groups = grouped(specs)->Ok_0;
    let unordered = settled(groups)->Ok_0;
    let p = ordered_pairing(specs)->Ok_0;
    lemma_grouped_meaning(specs, n);
    lemma_settled_meaning(groups);
    lemma_group_at(groups, key);
    let at = group_at(groups, specs[k].key);
    assert(group_means(specs, n, groups[at]));
    assert(ignored_within(specs, n, key));
    assert(groups[at].ignored);
    crate::order::lemma_sorted_by::<RepoPair, ByMatchKey>(ByMatchKey, unordered.pairs);
    assert forall|i: int| 0 <= i < p.pairs.len() implies (#[trigger] p.pairs[i]).key != key by {
        assert(p.pairs.contains(p.pairs[i]));
        assert(p.pairs.to_multiset().count(p.pairs[i]) > 0);
        assert(unordered.pairs.to_multiset().count(p.pairs[i]) > 0);
        assert(unordered.pairs.contains(p.pairs[i]));
        let u = choose|u: int| 0 <= u < unordered.pairs.len() && unordered.pairs[u] == p.pairs[i];
        let g = choose|g: int|
            0 <= g < groups.len() && !(#[trigger] groups[g]).ignored && groups[g].key
                == unordered.pairs[u].key;
        if groups[g].key == key {
            lemma_group_at_is(groups, g);
        }
    }
    assert forall|j: int| 0 <= j < specs.len() && (#[trigger] specs[j]).key == key implies p.ignored_paths.contains(
        specs[j].path,
    ) by {
        assert(groups[at].paths.contains(specs[j].path));
        let x = choose|x: int| 0 <= x < groups[at].paths.len() && groups[at].paths[x] == specs[j].path;
        assert(unordered.ignored_paths.contains(groups[at].paths[x]));
    }
}

/// The pairs of an accepted configuration stand in ascending order of their
/// keys.
pub proof fn lemma_pairs_are_ordered(specs: Seq<RepoSpecView>)
    requires
        ordered_pairing(specs) is Ok,
    ensures
        crate::order::ordered::<RepoPair, ByMatchKey>(
            ByMatchKey,
            ordered_pairing(specs)->Ok_0.pairs,
        ),
{
    crate::order::lemma_sorted_by::<RepoPair, ByMatchKey>(ByMatchKey, pairing(specs)->Ok_0.pairs);
}

} // verus!
