//! The batch: every pair's finding or the first failure, and the order in
//! which the findings are listed.

use vstd::prelude::*;
use crate::git_rewrite::config::{
    build_pairs, ordered_pairing, reports_fault, GitRewriteConfig, RepoPairView,
};
use crate::git_rewrite::error::GitRewriteError;
use crate::git_rewrite::worker::{
    audit_arguments, audit_arguments_of, is_run_result, run_pair, AuditOutcome,
};
use crate::system::Clock;
use crate::order::{keys_before, sort_by, sorted_by, texts, Order};
use crate::types::{views, GitRewriteEntry, GitRewriteView};

verus! {

/// Orders findings by the name of the source, then by the name of the target.
pub struct BySourceAndTarget;

impl Order<GitRewriteEntry> for BySourceAndTarget {
    open spec fn key(&self, item: GitRewriteView) -> Seq<Seq<char>> {
        seq![item.source_repo, item.target_repo]
    }

    fn before(&self, a: &GitRewriteEntry, b: &GitRewriteEntry) -> (r: bool) {
        let ka = [a.source_repo.as_str(), a.target_repo.as_str()];
        let kb = [b.source_repo.as_str(), b.target_repo.as_str()];
        assert(texts(ka@) =~= self.key(a@));
        assert(texts(kb@) =~= self.key(b@));
        keys_before(&ka, &kb)
    }
}

/// The position of the first failure among the results, or their number
/// where none failed.
pub open spec fn first_failure(results: Seq<Result<GitRewriteEntry, GitRewriteError>>) -> int
    decreases results.len(),
{
    if results.len() == 0 || results[0] is Err {
        0
    } else {
        1 + first_failure(results.skip(1))
    }
}

/// The findings among the results, in order.
pub open spec fn findings(results: Seq<Result<GitRewriteEntry, GitRewriteError>>) -> Seq<
    GitRewriteView,
>
    decreases results.len(),
{
    if results.len() == 0 {
        Seq::empty()
    } else {
        match results.last() {
            Ok(entry) => findings(results.drop_last()).push(entry@),
            Err(_) => findings(results.drop_last()),
        }
    }
}

/// `first_failure` lands on a failure with none before it, or at the end.
pub proof fn lemma_first_failure(results: Seq<Result<GitRewriteEntry, GitRewriteError>>)
    ensures
        0 <= first_failure(results) <= results.len(),
        first_failure(results) < results.len() ==> results[first_failure(results)] is Err,
        forall|i: int| 0 <= i < first_failure(results) ==> (#[trigger] results[i]) is Ok,
    decreases results.len(),
{
    if results.len() != 0 && results[0] is Ok {
        lemma_first_failure(results.skip(1));
        assert forall|i: int| 0 <= i < first_failure(results) implies (#[trigger] results[i]) is Ok by {
            if i > 0 {
                assert(results.skip(1)[i - 1] == results[i]);
            }
        }
    }
}

/// Gathers the results of a batch, one result for each pair, in the order in
/// which they are handed over.
///
/// One failure fails the batch: the first failure in that order is returned,
/// and no finding with it. Where nothing failed, all findings are returned,
/// in ascending order of source name and target name; findings that agree in
/// both keep the order in which they came.
pub fn collect_entries(results: Vec<Result<GitRewriteEntry, GitRewriteError>>) -> (r: Result<
    Vec<GitRewriteEntry>,
    GitRewriteError,
>)
    ensures
        match r {
            Ok(entries) => first_failure(results@) == results@.len() && views(entries@)
                == sorted_by::<GitRewriteEntry, BySourceAndTarget>(
                BySourceAndTarget,
                findings(results@),
            ),
            Err(e) => first_failure(results@) < results@.len() && results@[first_failure(
                results@,
            )] == Err::<GitRewriteEntry, GitRewriteError>(e),
        },
{
    let ghost all = results@;
    let mut rest = results;
    let mut entries: Vec<GitRewriteEntry> = Vec::new();
    let total = rest.len();
    let mut done: usize = 0;
    proof {
        assert(all.skip(0) =~= all);
        assert(all.take(0) =~= Seq::empty());
        assert(views(entries@) =~= Seq::<GitRewriteView>::empty());
    }
    while done < total
        invariant
            done <= total == all.len(),
            all == results@,
            rest@ == all.skip(done as int),
            first_failure(all) == done + first_failure(all.skip(done as int)),
            views(entries@) == findings(all.take(done as int)),
        decreases total - done,
    {
        let ghost before = views(entries@);
        let next = rest.remove(0);
        proof {
            assert(next == all[done as int]);
            assert(rest@ =~= all.skip(done + 1));
            assert(all.skip(done as int).skip(1) =~= all.skip(done + 1));
            assert(all.take(done + 1).drop_last() =~= all.take(done as int));
            assert(all.take(done + 1).last() == next);
        }
        match next {
            Ok(entry) => {
                entries.push(entry);
                assert(views(entries@) =~= before.push(entry@));
            },
            Err(e) => {
                return Err(e);
            },
        }
        done += 1;
    }
    proof {
        assert(all.take(total as int) =~= all);
        assert(all.skip(total as int) =~= Seq::empty());
    }
    sort_by(&mut entries, &BySourceAndTarget);
    Ok(entries)
}

/// Whether no two findings agree in both the name of the source and the
/// name of the target.
pub open spec fn names_differ(entries: Seq<GitRewriteView>) -> bool {
    forall|i: int, j: int|
        0 <= i < entries.len() && 0 <= j < entries.len() && i != j ==> !((
            #[trigger] entries[i]).source_repo == (#[trigger] entries[j]).source_repo
            && entries[i].target_repo == entries[j].target_repo)
}

/// What a batch returns does not depend on the order in which its results
/// come in: two batches without a failure that hold the same findings, no
/// two of which agree in source and target name, list them alike.
pub proof fn lemma_batch_order_is_immaterial(
    a: Seq<Result<GitRewriteEntry, GitRewriteError>>,
    b: Seq<Result<GitRewriteEntry, GitRewriteError>>,
)
    requires
        findings(a).to_multiset() == findings(b).to_multiset(),
        names_differ(findings(a)),
    ensures
        sorted_by::<GitRewriteEntry, BySourceAndTarget>(BySourceAndTarget, findings(a))
            == sorted_by::<GitRewriteEntry, BySourceAndTarget>(BySourceAndTarget, findings(b)),
{
    let fa = findings(a);
    let order = BySourceAndTarget;
    assert(crate::order::distinct_keys::<GitRewriteEntry, BySourceAndTarget>(order, fa, 2)) by {
        assert forall|i: int, j: int|
            0 <= i < fa.len() && 0 <= j < fa.len() && i != j implies order.key(#[trigger] fa[i])
            != order.key(#[trigger] fa[j]) by {
            if order.key(fa[i]) == order.key(fa[j]) {
                assert(order.key(fa[i])[0] == fa[i].source_repo);
                assert(order.key(fa[j])[0] == fa[j].source_repo);
                assert(order.key(fa[i])[1] == fa[i].target_repo);
                assert(order.key(fa[j])[1] == fa[j].target_repo);
            }
        }
    }
    crate::order::lemma_sorted_by_any_order::<GitRewriteEntry, BySourceAndTarget>(
        order,
        fa,
        findings(b),
        2,
    );
}

/// The findings of a batch come out in ascending order of source and target
/// name, and they are the findings that went in, each as often.
pub proof fn lemma_batch_is_ordered(results: Seq<Result<GitRewriteEntry, GitRewriteError>>)
    ensures
        crate::order::ordered::<GitRewriteEntry, BySourceAndTarget>(
            BySourceAndTarget,
            sorted_by::<GitRewriteEntry, BySourceAndTarget>(BySourceAndTarget, findings(results)),
        ),
        sorted_by::<GitRewriteEntry, BySourceAndTarget>(
            BySourceAndTarget,
            findings(results),
        ).to_multiset() == findings(results).to_multiset(),
{
    crate::order::lemma_sorted_by::<GitRewriteEntry, BySourceAndTarget>(
        BySourceAndTarget,
        findings(results),
    );
}

/// Whether `result` is what the audit of `pair` gives when the tool is run
/// by `run`: the tool is handed the arguments for the pair, and what is made
/// of the way it ended is the result.
pub open spec fn is_pair_result<R: Fn(Vec<String>) -> AuditOutcome>(
    run: R,
    pair: RepoPairView,
    now: i64,
    result: Result<GitRewriteEntry, GitRewriteError>,
) -> bool {
    exists|args: Vec<String>, outcome: AuditOutcome| #[trigger]
        call_ensures(run, (args,), outcome) && views(args@) == audit_arguments_of(pair)
            && is_run_result(pair, outcome, now, result)
}

/// Whether `r` is what a batch over `pairs` returns when the clock showed
/// `now` and the runs gave `results`. The clock is read once, and only where
/// there are pairs; every age of the batch is measured from that reading.
/// There is a result for each pair up to the first failure and for none
/// behind it; a failure is returned alone, and where nothing failed all
/// findings are returned, in order of source and target name.
pub open spec fn is_batch<C: Clock, R: Fn(Vec<String>) -> AuditOutcome>(
    clock: C,
    run: R,
    pairs: Seq<RepoPairView>,
    now: i64,
    results: Seq<Result<GitRewriteEntry, GitRewriteError>>,
    r: Result<Vec<GitRewriteEntry>, GitRewriteError>,
) -> bool {
    &&& pairs.len() > 0 ==> clock.may_read(now)
    &&& results.len() <= pairs.len()
    &&& forall|i: int|
        0 <= i < results.len() ==> is_pair_result(run, pairs[i], now, #[trigger] results[i])
    &&& if first_failure(results) < results.len() {
        &&& first_failure(results) == results.len() - 1
        &&& r == Err::<Vec<GitRewriteEntry>, GitRewriteError>(results.last()->Err_0)
    } else {
        &&& results.len() == pairs.len()
        &&& r is Ok
        &&& views(r->Ok_0@) == sorted_by::<GitRewriteEntry, BySourceAndTarget>(
            BySourceAndTarget,
            findings(results),
        )
    }
}

/// One more result behind results without a failure.
pub proof fn lemma_first_failure_push(
    results: Seq<Result<GitRewriteEntry, GitRewriteError>>,
    next: Result<GitRewriteEntry, GitRewriteError>,
)
    requires
        first_failure(results) == results.len(),
    ensures
        first_failure(results.push(next)) == if next is Err {
            results.len()
        } else {
            results.len() + 1
        },
    decreases results.len(),
{
    let all = results.push(next);
    if results.len() > 0 {
        assert(results[0] is Ok);
        assert(all[0] == results[0]);
        assert(all.skip(1) =~= results.skip(1).push(next));
        assert(first_failure(results) == 1 + first_failure(results.skip(1)));
        lemma_first_failure_push(results.skip(1), next);
        assert(first_failure(all) == 1 + first_failure(all.skip(1)));
    } else {
        assert(all[0] == next);
        assert(all.skip(1) =~= Seq::empty());
        assert(first_failure(all.skip(1)) == 0);
    }
}

/// Audits every pair of a configuration, one after the other, and returns
/// the findings or the first failure.
///
/// The configuration is paired first; a wrong pairing is reported before
/// anything is run. Without pairs there is nothing to do, and the clock is
/// not read. Otherwise the clock is read once, and every age is measured
/// from that moment. The pairs are taken in ascending order of their keys;
/// `run` runs the audit tool with the arguments for a pair and says how the
/// run ended. The first failure ends the batch: it is returned alone, and
/// the tool is not run again. Where nothing fails, the findings are returned
/// in ascending order of source name and target name.
pub fn collect_git_rewrite_entries<C: Clock, R: Fn(Vec<String>) -> AuditOutcome>(
    config: &GitRewriteConfig,
    run: &R,
    clock: &C,
) -> (r: Result<Vec<GitRewriteEntry>, GitRewriteError>)
    requires
        forall|args: Vec<String>| call_requires(*run, (args,)),
    ensures
        match ordered_pairing(config@) {
            Ok(p) => exists|now: i64, results: Seq<Result<GitRewriteEntry, GitRewriteError>>|
                #[trigger] is_batch(*clock, *run, p.pairs, now, results, r),
            Err(fault) => reports_fault(r, fault),
        },
{
    let pairs = match build_pairs(config) {
        Ok(pairs) => pairs,
        Err(e) => {
            return Err(e);
        },
    };
    let ghost ps = views(pairs@);
    let ghost mut results: Seq<Result<GitRewriteEntry, GitRewriteError>> = Seq::empty();
    let mut entries: Vec<GitRewriteEntry> = Vec::new();
    if pairs.len() == 0 {
        let r: Result<Vec<GitRewriteEntry>, GitRewriteError> = Ok(entries);
        proof {
            assert(views(r->Ok_0@) =~= Seq::<GitRewriteView>::empty());
            assert(findings(results) =~= Seq::<GitRewriteView>::empty());
            assert(is_batch(*clock, *run, ps, 0, results, r));
        }
        return r;
    }
    let now = clock.now();
    let mut i: usize = 0;
    assert(views(entries@) =~= findings(results));
    while i < pairs.len()
        invariant
            i <= pairs.len(),
            ps == views(pairs@),
            ordered_pairing(config@) is Ok,
            ordered_pairing(config@)->Ok_0.pairs == ps,
            results.len() == i,
            first_failure(results) == results.len(),
            views(entries@) == findings(results),
            clock.may_read(now),
            forall|k: int| 0 <= k < i ==> is_pair_result(*run, ps[k], now, #[trigger] results[k]),
            forall|args: Vec<String>| call_requires(*run, (args,)),
        decreases pairs.len() - i,
    {
        let pair = &pairs[i];
        let args = audit_arguments(pair);
        let ghost handed = args;
        let outcome = run(args);
        let ghost ended = outcome;
        let result = run_pair(pair, outcome, now);
        let ghost before = results;
        let ghost found = views(entries@);
        proof {
            results = before.push(result);
            lemma_first_failure_push(before, result);
            assert(results.drop_last() =~= before);
            assert(call_ensures(*run, (handed,), ended));
            assert(is_pair_result(*run, ps[i as int], now, result));
            assert forall|k: int| 0 <= k < i + 1 implies is_pair_result(
                *run,
                ps[k],
                now,
                #[trigger] results[k],
            ) by {
                if k < i {
                    assert(results[k] == before[k]);
                }
            }
        }
        match result {
            Ok(entry) => {
                entries.push(entry);
                assert(views(entries@) =~= found.push(entry@));
            },
            Err(e) => {
                let r: Result<Vec<GitRewriteEntry>, GitRewriteError> = Err(e);
                assert(is_batch(*clock, *run, ps, now, results, r));
                return r;
            },
        }
        i += 1;
    }
    sort_by(&mut entries, &BySourceAndTarget);
    let r: Result<Vec<GitRewriteEntry>, GitRewriteError> = Ok(entries);
    assert(is_batch(*clock, *run, ps, now, results, r));
    r
}

} // verus!
