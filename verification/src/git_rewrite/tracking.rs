//! Reconciliation: which of the repositories found on disk stand outside the
//! audited pairs, and which audited endpoints were not found on disk.

use vstd::prelude::*;
use crate::git_rewrite::config::{
    build_other_repos_summary, endpoints_of, ordered_pairing, reports_fault, Endpoint,
    EndpointView,
    GitRewriteConfig, OtherReposSummary,
};
use crate::git_rewrite::error::GitRewriteError;
use crate::order::{keys_before, sort_by, sorted_by, texts, Order};
use crate::text::holds_text;
use crate::system::FsOps;
use crate::types::{
    views, RepoSummary, RepoSummaryView, UntrackedReason, UntrackedRepoEntry, UntrackedView,
};

verus! {

/// A repository found on disk, with the place that its path comes down to.
#[derive(Debug, Clone)]
pub struct PlacedRepo {
    pub summary: RepoSummary,
    /// The path in canonical form, or as written where there is none.
    pub location: String,
}

pub struct PlacedRepoView {
    pub summary: RepoSummaryView,
    pub location: Seq<char>,
}

impl View for PlacedRepo {
    type V = PlacedRepoView;

    open spec fn view(&self) -> PlacedRepoView {
        PlacedRepoView { summary: self.summary@, location: self.location@ }
    }
}

/// An audited endpoint, with the place that its path comes down to.
#[derive(Debug, Clone)]
pub struct PlacedEndpoint {
    pub endpoint: Endpoint,
    /// The path in canonical form, or as written where there is none.
    pub location: String,
}

pub struct PlacedEndpointView {
    pub endpoint: EndpointView,
    pub location: Seq<char>,
}

impl View for PlacedEndpoint {
    type V = PlacedEndpointView;

    open spec fn view(&self) -> PlacedEndpointView {
        PlacedEndpointView { endpoint: self.endpoint@, location: self.location@ }
    }
}

/// The places of the endpoints.
pub open spec fn endpoint_places(endpoints: Seq<PlacedEndpointView>) -> Seq<Seq<char>> {
    endpoints.map_values(|e: PlacedEndpointView| e.location)
}

/// The places of the repositories.
pub open spec fn repo_places(repos: Seq<PlacedRepoView>) -> Seq<Seq<char>> {
    repos.map_values(|r: PlacedRepoView| r.location)
}

/// The entry for a repository found on disk: it carries over what was
/// collected on the repository and its checked-out branch.
pub open spec fn found_entry(repo: RepoSummaryView, reason: UntrackedReason) -> UntrackedView {
    UntrackedView {
        repo: repo.repo,
        branch: repo.branch,
        root_display: repo.root_display,
        root_full: repo.root_full,
        revs: repo.head_revs,
        earliest_secs: repo.head_earliest_secs,
        latest_secs: repo.head_latest_secs,
        reason,
    }
}

/// The entry for an audited endpoint that was not found on disk: it is known
/// by its path alone, and nothing was collected on it.
pub open spec fn missing_entry(e: PlacedEndpointView) -> UntrackedView {
    UntrackedView {
        repo: e.endpoint.path,
        branch: e.endpoint.branch,
        root_display: e.endpoint.path,
        root_full: e.location,
        revs: None,
        earliest_secs: None,
        latest_secs: None,
        reason: UntrackedReason::MissingRepo,
    }
}

/// Why a repository at `location` stands outside the audit, if it does: it
/// does not where an audited endpoint is at that place.
pub open spec fn reason_for(location: Seq<char>, audited: Seq<Seq<char>>, ignored: Seq<Seq<char>>) -> Option<
    UntrackedReason,
> {
    if audited.contains(location) {
        None
    } else if ignored.contains(location) {
        Some(UntrackedReason::Ignored)
    } else {
        Some(UntrackedReason::MissingConfig)
    }
}

/// The entries for the repositories found on disk that stand outside the
/// audit, in the order of the repositories.
pub open spec fn outside_entries(
    repos: Seq<PlacedRepoView>,
    audited: Seq<Seq<char>>,
    ignored: Seq<Seq<char>>,
) -> Seq<UntrackedView>
    decreases repos.len(),
{
    if repos.len() == 0 {
        Seq::empty()
    } else {
        let rest = outside_entries(repos.drop_last(), audited, ignored);
        match reason_for(repos.last().location, audited, ignored) {
            Some(reason) => rest.push(found_entry(repos.last().summary, reason)),
            None => rest,
        }
    }
}

/// Whether the endpoint at position `i` is reported as missing: no
/// repository was found at its place, and no endpoint before it is at the
/// same place.
pub open spec fn is_missing(endpoints: Seq<PlacedEndpointView>, seen: Seq<Seq<char>>, i: int) -> bool {
    !seen.contains(endpoints[i].location) && !endpoint_places(endpoints).take(i).contains(
        endpoints[i].location,
    )
}

/// The entries for the audited endpoints that were not found on disk, in the
/// order of the endpoints, one for each place.
pub open spec fn missing_entries(endpoints: Seq<PlacedEndpointView>, seen: Seq<Seq<char>>, n: int) -> Seq<
    UntrackedView,
>
    decreases n,
{
    if n <= 0 {
        Seq::empty()
    } else {
        let rest = missing_entries(endpoints, seen, n - 1);
        if is_missing(endpoints, seen, n - 1) {
            rest.push(missing_entry(endpoints[n - 1]))
        } else {
            rest
        }
    }
}

/// Orders entries by search root, then repository name, then branch.
pub struct ByRootRepoBranch;

impl Order<UntrackedRepoEntry> for ByRootRepoBranch {
    open spec fn key(&self, item: UntrackedView) -> Seq<Seq<char>> {
        seq![item.root_display, item.repo, item.branch]
    }

    fn before(&self, a: &UntrackedRepoEntry, b: &UntrackedRepoEntry) -> (r: bool) {
        let ka = [a.root_display.as_str(), a.repo.as_str(), a.branch.as_str()];
        let kb = [b.root_display.as_str(), b.repo.as_str(), b.branch.as_str()];
        assert(texts(ka@) =~= self.key(a@));
        assert(texts(kb@) =~= self.key(b@));
        keys_before(&ka, &kb)
    }
}

/// The reconciliation of what was found with what is configured: first the
/// repositories found on disk that stand outside the audit, then the audited
/// endpoints that were not found; all of it ordered by search root,
/// repository name and branch.
pub open spec fn reconciled(
    repos: Seq<PlacedRepoView>,
    endpoints: Seq<PlacedEndpointView>,
    ignored: Seq<Seq<char>>,
) -> Seq<UntrackedView> {
    sorted_by::<UntrackedRepoEntry, ByRootRepoBranch>(
        ByRootRepoBranch,
        outside_entries(repos, endpoint_places(endpoints), ignored) + missing_entries(
            endpoints,
            repo_places(repos),
            endpoints.len() as int,
        ),
    )
}

/// The entry that a repository found on disk is listed as, where it stands
/// outside the audit.
pub open spec fn listed_as(repo: PlacedRepoView, ignored: Seq<Seq<char>>) -> UntrackedView {
    found_entry(
        repo.summary,
        if ignored.contains(repo.location) {
            UntrackedReason::Ignored
        } else {
            UntrackedReason::MissingConfig
        },
    )
}

/// Every repository that stands outside the audit has its entry among the
/// outside entries, and every outside entry is the entry of such a repository.
pub proof fn lemma_outside_entries(
    repos: Seq<PlacedRepoView>,
    audited: Seq<Seq<char>>,
    ignored: Seq<Seq<char>>,
)
    ensures
        forall|i: int|
            0 <= i < repos.len() && !audited.contains((#[trigger] repos[i]).location)
                ==> outside_entries(repos, audited, ignored).contains(listed_as(repos[i], ignored)),
        forall|e: UntrackedView| #[trigger]
            outside_entries(repos, audited, ignored).contains(e) ==> exists|i: int|
                0 <= i < repos.len() && !audited.contains((#[trigger] repos[i]).location) && e
                    == listed_as(repos[i], ignored),
    decreases repos.len(),
{
    if repos.len() > 0 {
        let init = repos.drop_last();
        let last = repos.last();
        let rest = outside_entries(init, audited, ignored);
        let all = outside_entries(repos, audited, ignored);
        lemma_outside_entries(init, audited, ignored);
        assert forall|i: int|
            0 <= i < repos.len() && !audited.contains((#[trigger] repos[i]).location) implies all.contains(
            listed_as(repos[i], ignored),
        ) by {
            if i < init.len() {
                assert(init[i] == repos[i]);
                assert(rest.contains(listed_as(repos[i], ignored)));
                let k = choose|k: int| 0 <= k < rest.len() && rest[k] == listed_as(repos[i], ignored);
                assert(all[k] == rest[k]);
            } else {
                assert(repos[i] == last);
                assert(all[all.len() - 1] == listed_as(last, ignored));
            }
        }
        assert forall|e: UntrackedView| #[trigger] all.contains(e) implies exists|i: int|
            0 <= i < repos.len() && !audited.contains((#[trigger] repos[i]).location) && e
                == listed_as(repos[i], ignored) by {
            let k = choose|k: int| 0 <= k < all.len() && all[k] == e;
            if k < rest.len() {
                assert(rest[k] == e);
                assert(rest.contains(e));
                let i = choose|i: int|
                    0 <= i < init.len() && !audited.contains((#[trigger] init[i]).location) && e
                        == listed_as(init[i], ignored);
                assert(repos[i] == init[i]);
            } else {
                assert(repos[repos.len() - 1] == last);
                assert(!audited.contains(repos[repos.len() - 1].location));
            }
        }
    }
}

/// Every endpoint that is reported as missing has its entry among the
/// missing entries, and every missing entry is the entry of such an endpoint.
pub proof fn lemma_missing_entries(
    endpoints: Seq<PlacedEndpointView>,
    seen: Seq<Seq<char>>,
    n: int,
)
    requires
        0 <= n <= endpoints.len(),
    ensures
        forall|j: int|
            0 <= j < n && is_missing(endpoints, seen, j) ==> missing_entries(
                endpoints,
                seen,
                n,
            ).contains(missing_entry(#[trigger] endpoints[j])),
        forall|e: UntrackedView| #[trigger]
            missing_entries(endpoints, seen, n).contains(e) ==> exists|j: int|
                0 <= j < n && is_missing(endpoints, seen, j) && e == missing_entry(
                    #[trigger] endpoints[j],
                ),
    decreases n,
{
    if n > 0 {
        let rest = missing_entries(endpoints, seen, n - 1);
        let all = missing_entries(endpoints, seen, n);
        lemma_missing_entries(endpoints, seen, n - 1);
        assert forall|j: int| 0 <= j < n && is_missing(endpoints, seen, j) implies all.contains(
            missing_entry(#[trigger] endpoints[j]),
        ) by {
            if j < n - 1 {
                assert(rest.contains(missing_entry(endpoints[j])));
                let k = choose|k: int| 0 <= k < rest.len() && rest[k] == missing_entry(endpoints[j]);
                assert(all[k] == rest[k]);
            } else {
                assert(all[all.len() - 1] == missing_entry(endpoints[j]));
            }
        }
        assert forall|e: UntrackedView| #[trigger] all.contains(e) implies exists|j: int|
            0 <= j < n && is_missing(endpoints, seen, j) && e == missing_entry(
                #[trigger] endpoints[j],
            ) by {
            let k = choose|k: int| 0 <= k < all.len() && all[k] == e;
            if k < rest.len() {
                assert(rest[k] == e);
                assert(rest.contains(e));
            } else {
                assert(is_missing(endpoints, seen, n - 1));
                assert(e == missing_entry(endpoints[n - 1]));
            }
        }
    }
}

/// An endpoint at whose place no repository was found is reported as
/// missing, itself or the first endpoint at the same place.
pub proof fn lemma_first_at_place(endpoints: Seq<PlacedEndpointView>, seen: Seq<Seq<char>>, j: int)
    requires
        0 <= j < endpoints.len(),
        !seen.contains(endpoints[j].location),
    ensures
        exists|k: int|
            0 <= k <= j && is_missing(endpoints, seen, k) && (#[trigger] endpoints[k]).location
                == endpoints[j].location,
    decreases j,
{
    let places = endpoint_places(endpoints);
    if places.take(j).contains(endpoints[j].location) {
        let k = choose|k: int| 0 <= k < places.take(j).len() && places.take(j)[k] == endpoints[j].location;
        assert(places[k] == endpoints[k].location);
        lemma_first_at_place(endpoints, seen, k);
        let m = choose|m: int|
            0 <= m <= k && is_missing(endpoints, seen, m) && (#[trigger] endpoints[m]).location
                == endpoints[k].location;
        assert(endpoints[m].location == endpoints[j].location);
    } else {
        assert(is_missing(endpoints, seen, j));
    }
}

/// The reconciliation lists a repository found on disk exactly where no
/// audited endpoint is at its place: as ignored where its place is among
/// the ignored ones, as missing from the configuration otherwise, and
/// either way with what was collected on it.
pub proof fn lemma_found_repo_is_listed(
    repos: Seq<PlacedRepoView>,
    endpoints: Seq<PlacedEndpointView>,
    ignored: Seq<Seq<char>>,
    i: int,
)
    requires
        0 <= i < repos.len(),
        !endpoint_places(endpoints).contains(repos[i].location),
    ensures
        reconciled(repos, endpoints, ignored).contains(listed_as(repos[i], ignored)),
        listed_as(repos[i], ignored).reason == (if ignored.contains(repos[i].location) {
            UntrackedReason::Ignored
        } else {
            UntrackedReason::MissingConfig
        }),
        listed_as(repos[i], ignored).revs == repos[i].summary.head_revs,
        listed_as(repos[i], ignored).earliest_secs == repos[i].summary.head_earliest_secs,
        listed_as(repos[i], ignored).latest_secs == repos[i].summary.head_latest_secs,
{
    broadcast use vstd::seq_lib::to_multiset_contains;

    let outside = outside_entries(repos, endpoint_places(endpoints), ignored);
    let missing = missing_entries(endpoints, repo_places(repos), endpoints.len() as int);
    let e = listed_as(repos[i], ignored);
    lemma_outside_entries(repos, endpoint_places(endpoints), ignored);
    assert(outside.contains(e));
    let k = choose|k: int| 0 <= k < outside.len() && outside[k] == e;
    assert((outside + missing)[k] == e);
    assert((outside + missing).contains(e));
    crate::order::lemma_sorted_by::<UntrackedRepoEntry, ByRootRepoBranch>(
        ByRootRepoBranch,
        outside + missing,
    );
    assert((outside + missing).to_multiset().count(e) > 0);
    assert(reconciled(repos, endpoints, ignored).to_multiset().count(e) > 0);
}

/// The reconciliation lists an audited endpoint at whose place no repository
/// was found as a missing repository, with nothing collected on it.
pub proof fn lemma_missing_endpoint_is_listed(
    repos: Seq<PlacedRepoView>,
    endpoints: Seq<PlacedEndpointView>,
    ignored: Seq<Seq<char>>,
    j: int,
)
    requires
        0 <= j < endpoints.len(),
        !repo_places(repos).contains(endpoints[j].location),
    ensures
        exists|e: UntrackedView|
            #[trigger] reconciled(repos, endpoints, ignored).contains(e) && e.reason
                == UntrackedReason::MissingRepo && e.root_full == endpoints[j].location
                && e.revs is None && e.earliest_secs is None && e.latest_secs is None,
{
    broadcast use vstd::seq_lib::to_multiset_contains;

    let seen = repo_places(repos);
    let outside = outside_entries(repos, endpoint_places(endpoints), ignored);
    let missing = missing_entries(endpoints, seen, endpoints.len() as int);
    lemma_first_at_place(endpoints, seen, j);
    let k = choose|k: int|
        0 <= k <= j && is_missing(endpoints, seen, k) && (#[trigger] endpoints[k]).location
            == endpoints[j].location;
    lemma_missing_entries(endpoints, seen, endpoints.len() as int);
    let e = missing_entry(endpoints[k]);
    assert(missing.contains(e));
    let m = choose|m: int| 0 <= m < missing.len() && missing[m] == e;
    assert((outside + missing)[outside.len() + m] == e);
    assert((outside + missing).contains(e));
    crate::order::lemma_sorted_by::<UntrackedRepoEntry, ByRootRepoBranch>(
        ByRootRepoBranch,
        outside + missing,
    );
    assert((outside + missing).to_multiset().count(e) > 0);
    assert(reconciled(repos, endpoints, ignored).to_multiset().count(e) > 0);
    assert(reconciled(repos, endpoints, ignored).contains(e));
}

/// Nothing else is listed: every entry of the reconciliation is the entry of
/// a repository found on disk where no audited endpoint is, or of an audited
/// endpoint at whose place no repository was found.
pub proof fn lemma_listed_has_a_cause(
    repos: Seq<PlacedRepoView>,
    endpoints: Seq<PlacedEndpointView>,
    ignored: Seq<Seq<char>>,
    e: UntrackedView,
)
    requires
        reconciled(repos, endpoints, ignored).contains(e),
    ensures
        (exists|i: int|
            0 <= i < repos.len() && !endpoint_places(endpoints).contains(
                (#[trigger] repos[i]).location,
            ) && e == listed_as(repos[i], ignored)) || (exists|j: int|
            0 <= j < endpoints.len() && !repo_places(repos).contains(
                (#[trigger] endpoints[j]).location,
            ) && e == missing_entry(endpoints[j])),
{
    broadcast use vstd::seq_lib::to_multiset_contains;

    let seen = repo_places(repos);
    let outside = outside_entries(repos, endpoint_places(endpoints), ignored);
    let missing = missing_entries(endpoints, seen, endpoints.len() as int);
    crate::order::lemma_sorted_by::<UntrackedRepoEntry, ByRootRepoBranch>(
        ByRootRepoBranch,
        outside + missing,
    );
    assert(reconciled(repos, endpoints, ignored).to_multiset().count(e) > 0);
    assert((outside + missing).to_multiset().count(e) > 0);
    assert((outside + missing).contains(e));
    let k = choose|k: int| 0 <= k < (outside + missing).len() && (outside + missing)[k] == e;
    if k < outside.len() {
        assert(outside[k] == e);
        assert(outside.contains(e));
        lemma_outside_entries(repos, endpoint_places(endpoints), ignored);
    } else {
        assert(missing[k - outside.len()] == e);
        assert(missing.contains(e));
        lemma_missing_entries(endpoints, seen, endpoints.len() as int);
        let j = choose|j: int|
            0 <= j < endpoints.len() && is_missing(endpoints, seen, j) && e == missing_entry(
                #[trigger] endpoints[j],
            );
        assert(!repo_places(repos).contains(endpoints[j].location));
    }
}

/// Reconciles the repositories found on disk with the audited endpoints and
/// the ignored places.
///
/// A repository at the place of an audited endpoint is not listed. Any other
/// is listed with what was collected on it: as ignored where its place is
/// among the ignored ones, as missing from the configuration otherwise. An
/// audited endpoint at whose place no repository was found is listed as a
/// missing repository, once for each place, with nothing collected.
pub fn reconcile(
    repos: &Vec<PlacedRepo>,
    endpoints: &Vec<PlacedEndpoint>,
    ignored: &Vec<String>,
) -> (r: Vec<UntrackedRepoEntry>)
    ensures
        views(r@) == reconciled(views(repos@), views(endpoints@), views(ignored@)),
{
    let ghost rs = views(repos@);
    let ghost es = views(endpoints@);
    let ghost tracked_places = endpoint_places(es);
    let ghost seen_places = repo_places(rs);
    let mut audited: Vec<String> = Vec::new();
    let mut i: usize = 0;
    assert(views(audited@) =~= tracked_places.take(0));
    while i < endpoints.len()
        invariant
            i <= endpoints.len(),
            es == views(endpoints@),
            tracked_places == endpoint_places(es),
            views(audited@) == tracked_places.take(i as int),
        decreases endpoints.len() - i,
    {
        let ghost before = views(audited@);
        audited.push(endpoints[i].location.clone());
        assert(views(audited@) =~= before.push(endpoints@[i as int]@.location));
        assert(tracked_places.take(i + 1) =~= tracked_places.take(i as int).push(
            tracked_places[i as int],
        ));
        i += 1;
    }
    assert(tracked_places.take(endpoints.len() as int) =~= tracked_places);

    let mut entries: Vec<UntrackedRepoEntry> = Vec::new();
    let mut seen: Vec<String> = Vec::new();
    let mut i: usize = 0;
    proof {
        assert(rs.take(0) =~= Seq::<PlacedRepoView>::empty());
        assert(views(entries@) =~= Seq::<UntrackedView>::empty());
        assert(views(seen@) =~= seen_places.take(0));
    }
    while i < repos.len()
        invariant
            i <= repos.len(),
            rs == views(repos@),
            seen_places == repo_places(rs),
            views(audited@) == tracked_places,
            views(seen@) == seen_places.take(i as int),
            views(entries@) == outside_entries(rs.take(i as int), tracked_places, views(ignored@)),
        decreases repos.len() - i,
    {
        let repo = &repos[i];
        let ghost before = views(entries@);
        let ghost seen_before = views(seen@);
        proof {
            assert(rs.take(i + 1).drop_last() =~= rs.take(i as int));
            assert(rs.take(i + 1).last() == repo@);
        }
        seen.push(repo.location.clone());
        proof {
            assert(views(seen@) =~= seen_before.push(repo@.location));
            assert(seen_places.take(i + 1) =~= seen_places.take(i as int).push(
                seen_places[i as int],
            ));
        }
        if !holds_text(&audited, repo.location.as_str()) {
            let reason = if holds_text(ignored, repo.location.as_str()) {
                UntrackedReason::Ignored
            } else {
                UntrackedReason::MissingConfig
            };
            let entry = UntrackedRepoEntry {
                repo: repo.summary.repo.clone(),
                branch: repo.summary.branch.clone(),
                root_display: repo.summary.root_display.clone(),
                root_full: repo.summary.root_full.clone(),
                revs: repo.summary.head_revs,
                earliest_secs: repo.summary.head_earliest_secs,
                latest_secs: repo.summary.head_latest_secs,
                reason,
            };
            assert(entry@ == found_entry(repo@.summary, reason));
            entries.push(entry);
            assert(views(entries@) =~= before.push(found_entry(repo@.summary, reason)));
        }
        i += 1;
    }
    proof {
        assert(rs.take(repos.len() as int) =~= rs);
        assert(seen_places.take(repos.len() as int) =~= seen_places);
    }
    let ghost outside = views(entries@);

    let mut recorded: Vec<String> = Vec::new();
    let mut j: usize = 0;
    assert(outside + missing_entries(es, seen_places, 0) =~= outside);
    while j < endpoints.len()
        invariant
            j <= endpoints.len(),
            es == views(endpoints@),
            tracked_places == endpoint_places(es),
            views(seen@) == seen_places,
            forall|p: Seq<char>| #[trigger]
                views(recorded@).contains(p) ==> tracked_places.take(j as int).contains(p)
                    && !seen_places.contains(p),
            forall|p: Seq<char>| #[trigger]
                tracked_places.take(j as int).contains(p) && !seen_places.contains(p)
                    ==> views(recorded@).contains(p),
            views(entries@) == outside + missing_entries(es, seen_places, j as int),
        decreases endpoints.len() - j,
    {
        let placed = &endpoints[j];
        let ghost before = views(entries@);
        let ghost recorded_before = views(recorded@);
        let ghost place = placed@.location;
        proof {
            assert(tracked_places[j as int] == place);
            assert(tracked_places.take(j + 1) =~= tracked_places.take(j as int).push(place));
        }
        let in_seen = holds_text(&seen, placed.location.as_str());
        let in_recorded = holds_text(&recorded, placed.location.as_str());
        proof {
            if !in_seen {
                assert(in_recorded == tracked_places.take(j as int).contains(place));
            }
            assert(is_missing(es, seen_places, j as int) == (!in_seen && !in_recorded));
        }
        if !in_seen && !in_recorded {
            recorded.push(placed.location.clone());
            let entry = UntrackedRepoEntry {
                repo: placed.endpoint.path.clone(),
                branch: placed.endpoint.branch.clone(),
                root_display: placed.endpoint.path.clone(),
                root_full: placed.location.clone(),
                revs: None,
                earliest_secs: None,
                latest_secs: None,
                reason: UntrackedReason::MissingRepo,
            };
            assert(entry@ == missing_entry(placed@));
            entries.push(entry);
            proof {
                assert(views(recorded@) =~= recorded_before.push(place));
                assert(views(entries@) =~= before.push(missing_entry(placed@)));
                assert(views(entries@) =~= outside + missing_entries(es, seen_places, j + 1));
            }
        }
        proof {
            let now = views(recorded@);
            let next = tracked_places.take(j + 1);
            let prev = tracked_places.take(j as int);
            assert(next[j as int] == place);
            assert forall|p: Seq<char>| #[trigger] now.contains(p) implies next.contains(p)
                && !seen_places.contains(p) by {
                let k = choose|k: int| 0 <= k < now.len() && now[k] == p;
                if k < recorded_before.len() {
                    assert(recorded_before[k] == p);
                    assert(recorded_before.contains(p));
                    assert(prev.contains(p));
                    let m = choose|m: int| 0 <= m < prev.len() && prev[m] == p;
                    assert(next[m] == p);
                } else {
                    assert(p == place);
                }
            }
            assert forall|p: Seq<char>| #[trigger]
                next.contains(p) && !seen_places.contains(p) implies now.contains(p) by {
                let k = choose|k: int| 0 <= k < next.len() && next[k] == p;
                if k < j {
                    assert(prev[k] == p);
                    assert(prev.contains(p));
                    assert(recorded_before.contains(p));
                    let m = choose|m: int| 0 <= m < recorded_before.len() && recorded_before[m] == p;
                    assert(now[m] == p);
                } else {
                    assert(p == place);
                    if in_recorded {
                        let m = choose|m: int|
                            0 <= m < recorded_before.len() && recorded_before[m] == p;
                        assert(now[m] == p);
                    } else {
                        assert(now[recorded_before.len() as int] == place);
                    }
                }
            }
        }
        j += 1;
    }
    sort_by(&mut entries, &ByRootRepoBranch);
    entries
}

/// The place that a path comes down to: its canonical form, or the path as
/// written where the file system yields none.
pub open spec fn place_of(canonical: Option<Seq<char>>, path: Seq<char>) -> Seq<char> {
    match canonical {
        Some(c) => c,
        None => path,
    }
}

/// Computes `place_of`.
pub fn place_from(canonical: Option<String>, path: &str) -> (r: String)
    ensures
        r@ == place_of(crate::types::opt_text(canonical), path@),
{
    match canonical {
        Some(c) => c,
        None => path.to_owned(),
    }
}

/// The place of `path`, with the canonical form asked of the file system.
pub fn normalize_path<F: FsOps>(fs: &F, path: &str) -> (r: String)
    ensures
        exists|canonical: Option<Seq<char>>| #[trigger]
            fs.may_canonicalize(path@, canonical) && r@ == place_of(canonical, path@),
{
    place_from(fs.canonicalize(path), path)
}

/// Whether `location` is a place that the file system gives for `path`.
pub open spec fn is_place<F: FsOps>(fs: F, path: Seq<char>, location: Seq<char>) -> bool {
    exists|canonical: Option<Seq<char>>| #[trigger]
        fs.may_canonicalize(path, canonical) && location == place_of(canonical, path)
}

/// Whether every repository and endpoint has kept what it is and got a place
/// that the file system gives for its path.
pub open spec fn placed_from<F: FsOps>(
    fs: F,
    placed_repos: Seq<PlacedRepoView>,
    repos: Seq<RepoSummaryView>,
    placed_endpoints: Seq<PlacedEndpointView>,
    endpoints: Seq<EndpointView>,
) -> bool {
    &&& placed_repos.len() == repos.len()
    &&& forall|i: int|
        0 <= i < repos.len() ==> (#[trigger] placed_repos[i]).summary == repos[i] && is_place(
            fs,
            repos[i].path,
            placed_repos[i].location,
        )
    &&& placed_endpoints.len() == endpoints.len()
    &&& forall|i: int|
        0 <= i < endpoints.len() ==> (#[trigger] placed_endpoints[i]).endpoint == endpoints[i]
            && is_place(fs, endpoints[i].path, placed_endpoints[i].location)
}

/// Whether `ignored` are places that the file system gives for `paths`, one
/// for one.
pub open spec fn places_of<F: FsOps>(fs: F, paths: Seq<Seq<char>>, ignored: Seq<Seq<char>>) -> bool {
    &&& ignored.len() == paths.len()
    &&& forall|i: int| 0 <= i < paths.len() ==> is_place(fs, paths[i], #[trigger] ignored[i])
}

/// Reconciles the repositories found on disk with a configuration's audited
/// endpoints and ignored paths. Every path is compared by its place, which
/// the file system is asked for.
pub fn build_untracked_entries<F: FsOps>(
    repos: &Vec<RepoSummary>,
    build: &OtherReposSummary,
    fs: &F,
) -> (r: Vec<UntrackedRepoEntry>)
    ensures
        is_reconciliation(
            *fs,
            views(repos@),
            views(build.tracked_endpoints@),
            views(build.ignored_paths@),
            views(r@),
        ),
{
    let mut placed_repos: Vec<PlacedRepo> = Vec::new();
    let mut i: usize = 0;
    while i < repos.len()
        invariant
            i <= repos.len(),
            placed_repos@.len() == i,
            forall|k: int|
                0 <= k < i ==> (#[trigger] views(placed_repos@)[k]).summary == views(repos@)[k]
                    && is_place(*fs, views(repos@)[k].path, views(placed_repos@)[k].location),
        decreases repos.len() - i,
    {
        let repo = &repos[i];
        let location = normalize_path(fs, repo.path.as_str());
        let summary = repo.duplicate();
        let ghost before = views(placed_repos@);
        let ghost place = location@;
        placed_repos.push(PlacedRepo { summary, location });
        assert forall|k: int| 0 <= k < i + 1 implies (#[trigger] views(placed_repos@)[k]).summary
            == views(repos@)[k] && is_place(
            *fs,
            views(repos@)[k].path,
            views(placed_repos@)[k].location,
        ) by {
            if k < i {
                assert(views(placed_repos@)[k] == before[k]);
            } else {
                assert(views(placed_repos@)[k].location == place);
            }
        }
        i += 1;
    }
    let mut placed_endpoints: Vec<PlacedEndpoint> = Vec::new();
    let mut i: usize = 0;
    while i < build.tracked_endpoints.len()
        invariant
            i <= build.tracked_endpoints.len(),
            placed_endpoints@.len() == i,
            forall|k: int|
                0 <= k < i ==> (#[trigger] views(placed_endpoints@)[k]).endpoint == views(
                    build.tracked_endpoints@,
                )[k] && is_place(
                    *fs,
                    views(build.tracked_endpoints@)[k].path,
                    views(placed_endpoints@)[k].location,
                ),
        decreases build.tracked_endpoints.len() - i,
    {
        let endpoint = &build.tracked_endpoints[i];
        let location = normalize_path(fs, endpoint.path.as_str());
        let copy = Endpoint { path: endpoint.path.clone(), branch: endpoint.branch.clone() };
        assert(copy@ == endpoint@);
        let ghost before = views(placed_endpoints@);
        let ghost place = location@;
        placed_endpoints.push(PlacedEndpoint { endpoint: copy, location });
        assert forall|k: int| 0 <= k < i + 1 implies (#[trigger] views(placed_endpoints@)[k]).endpoint
            == views(build.tracked_endpoints@)[k] && is_place(
            *fs,
            views(build.tracked_endpoints@)[k].path,
            views(placed_endpoints@)[k].location,
        ) by {
            if k < i {
                assert(views(placed_endpoints@)[k] == before[k]);
            } else {
                assert(views(placed_endpoints@)[k].location == place);
            }
        }
        i += 1;
    }
    let mut ignored: Vec<String> = Vec::new();
    let mut i: usize = 0;
    while i < build.ignored_paths.len()
        invariant
            i <= build.ignored_paths.len(),
            ignored@.len() == i,
            forall|k: int|
                0 <= k < i ==> is_place(
                    *fs,
                    views(build.ignored_paths@)[k],
                    #[trigger] views(ignored@)[k],
                ),
        decreases build.ignored_paths.len() - i,
    {
        let ghost before = views(ignored@);
        let location = normalize_path(fs, build.ignored_paths[i].as_str());
        let ghost place = location@;
        ignored.push(location);
        assert forall|k: int| 0 <= k < i + 1 implies is_place(
            *fs,
            views(build.ignored_paths@)[k],
            #[trigger] views(ignored@)[k],
        ) by {
            if k < i {
                assert(views(ignored@)[k] == before[k]);
            } else {
                assert(views(ignored@)[k] == place);
            }
        }
        i += 1;
    }
    let r = reconcile(&placed_repos, &placed_endpoints, &ignored);
    proof {
        assert(placed_from(
            *fs,
            views(placed_repos@),
            views(repos@),
            views(placed_endpoints@),
            views(build.tracked_endpoints@),
        ));
        assert(places_of(*fs, views(build.ignored_paths@), views(ignored@)));
        assert(is_reconciliation_with(
            *fs,
            views(repos@),
            views(build.tracked_endpoints@),
            views(build.ignored_paths@),
            views(r@),
            views(placed_repos@),
            views(placed_endpoints@),
            views(ignored@),
        ));
    }
    r
}

/// Whether `entries` reconcile `repos` with `endpoints` and `ignored_paths`
/// when the repositories, the endpoints and the ignored paths are placed as
/// given.
pub open spec fn is_reconciliation_with<F: FsOps>(
    fs: F,
    repos: Seq<RepoSummaryView>,
    endpoints: Seq<EndpointView>,
    ignored_paths: Seq<Seq<char>>,
    entries: Seq<UntrackedView>,
    placed_repos: Seq<PlacedRepoView>,
    placed_endpoints: Seq<PlacedEndpointView>,
    ignored: Seq<Seq<char>>,
) -> bool {
    &&& placed_from(fs, placed_repos, repos, placed_endpoints, endpoints)
    &&& places_of(fs, ignored_paths, ignored)
    &&& entries == reconciled(placed_repos, placed_endpoints, ignored)
}

/// Whether `entries` reconcile `repos` with `endpoints` and `ignored_paths`,
/// every path placed where the file system says.
pub open spec fn is_reconciliation<F: FsOps>(
    fs: F,
    repos: Seq<RepoSummaryView>,
    endpoints: Seq<EndpointView>,
    ignored_paths: Seq<Seq<char>>,
    entries: Seq<UntrackedView>,
) -> bool {
    exists|
        placed_repos: Seq<PlacedRepoView>,
        placed_endpoints: Seq<PlacedEndpointView>,
        ignored: Seq<Seq<char>>,
    | #[trigger]
        is_reconciliation_with(
            fs,
            repos,
            endpoints,
            ignored_paths,
            entries,
            placed_repos,
            placed_endpoints,
            ignored,
        )
}

/// Reconciles the repositories found on disk with a configuration. A
/// configuration that pairs its repositories wrongly is reported as such;
/// of any other, the audited endpoints and the ignored paths are reconciled
/// with the repositories, every path compared by its place.
pub fn collect_git_rewrite_untracked<F: FsOps>(
    config: &GitRewriteConfig,
    repos: &Vec<RepoSummary>,
    fs: &F,
) -> (r: Result<Vec<UntrackedRepoEntry>, GitRewriteError>)
    ensures
        match ordered_pairing(config@) {
            Ok(p) => r is Ok && is_reconciliation(
                *fs,
                views(repos@),
                endpoints_of(p.pairs),
                p.ignored_paths,
                views(r->Ok_0@),
            ),
            Err(fault) => reports_fault(r, fault),
        },
{
    let build = match build_other_repos_summary(config) {
        Ok(build) => build,
        Err(e) => {
            return Err(e);
        },
    };
    Ok(build_untracked_entries(repos, &build, fs))
}

} // verus!
