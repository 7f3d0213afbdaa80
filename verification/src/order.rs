//! Ordering of texts and of records by textual keys, and the stable sort
//! that the report's listings are arranged by.

use vstd::prelude::*;
use crate::types::views;

verus! {

/// Whether `a` comes strictly before `b` in dictionary order by character
/// code: at the first place where they differ the smaller character decides,
/// and a proper prefix comes first.
pub open spec fn text_lt(a: Seq<char>, b: Seq<char>) -> bool
    decreases a.len(),
{
    if b.len() == 0 {
        false
    } else if a.len() == 0 {
        true
    } else if a[0] != b[0] {
        a[0] < b[0]
    } else {
        text_lt(a.skip(1), b.skip(1))
    }
}

/// Whether the key `a` comes strictly before the key `b`: the first
/// component in which they differ decides, by `text_lt`.
pub open spec fn keys_lt(a: Seq<Seq<char>>, b: Seq<Seq<char>>) -> bool
    decreases a.len(),
{
    if a.len() == 0 || b.len() == 0 {
        false
    } else if a[0] != b[0] {
        text_lt(a[0], b[0])
    } else {
        keys_lt(a.skip(1), b.skip(1))
    }
}

/// No text comes before itself.
pub proof fn lemma_text_lt_irreflexive(a: Seq<char>)
    ensures
        !text_lt(a, a),
    decreases a.len(),
{
    if a.len() > 0 {
        lemma_text_lt_irreflexive(a.skip(1));
    }
}

/// Of two texts at most one comes before the other.
pub proof fn lemma_text_lt_asymmetric(a: Seq<char>, b: Seq<char>)
    ensures
        !(text_lt(a, b) && text_lt(b, a)),
    decreases a.len(),
{
    if a.len() > 0 && b.len() > 0 && a[0] == b[0] {
        lemma_text_lt_asymmetric(a.skip(1), b.skip(1));
    }
}

/// Of two different texts one comes before the other.
pub proof fn lemma_text_lt_total(a: Seq<char>, b: Seq<char>)
    ensures
        a == b || text_lt(a, b) || text_lt(b, a),
    decreases a.len(),
{
    if a.len() > 0 && b.len() > 0 && a[0] == b[0] {
        lemma_text_lt_total(a.skip(1), b.skip(1));
        if a.skip(1) == b.skip(1) {
            assert(a =~= seq![a[0]] + a.skip(1));
            assert(b =~= seq![b[0]] + b.skip(1));
        }
    } else if a.len() == 0 && b.len() == 0 {
        assert(a =~= b);
    }
}

/// `text_lt` is transitive.
pub proof fn lemma_text_lt_transitive(a: Seq<char>, b: Seq<char>, c: Seq<char>)
    requires
        text_lt(a, b),
        text_lt(b, c),
    ensures
        text_lt(a, c),
    decreases a.len(),
{
    if a.len() > 0 && a[0] == b[0] && b[0] == c[0] {
        lemma_text_lt_transitive(a.skip(1), b.skip(1), c.skip(1));
    }
}

/// Of two keys at most one comes before the other.
pub proof fn lemma_keys_lt_asymmetric(a: Seq<Seq<char>>, b: Seq<Seq<char>>)
    ensures
        !(keys_lt(a, b) && keys_lt(b, a)),
    decreases a.len(),
{
    if a.len() > 0 && b.len() > 0 {
        if a[0] == b[0] {
            lemma_keys_lt_asymmetric(a.skip(1), b.skip(1));
        } else {
            lemma_text_lt_asymmetric(a[0], b[0]);
        }
    }
}

/// Compares two texts. The result is negative where `a` comes first, zero
/// where the two are the same, positive where `b` comes first.
pub fn compare_text(a: &str, b: &str) -> (r: i8)
    ensures
        r < 0 <==> text_lt(a@, b@),
        r == 0 <==> a@ == b@,
        r > 0 <==> text_lt(b@, a@),
{
    let x = crate::text::chars_of(a);
    let y = crate::text::chars_of(b);
    let mut i: usize = 0;
    assert(x@.skip(0) =~= x@);
    assert(y@.skip(0) =~= y@);
    while i < x.len() && i < y.len() && x[i] == y[i]
        invariant
            i <= x.len(),
            i <= y.len(),
            x@.take(i as int) == y@.take(i as int),
            text_lt(x@, y@) == text_lt(x@.skip(i as int), y@.skip(i as int)),
            text_lt(y@, x@) == text_lt(y@.skip(i as int), x@.skip(i as int)),
        decreases x.len() - i,
    {
        proof {
            assert(x@.skip(i as int).skip(1) =~= x@.skip(i + 1));
            assert(y@.skip(i as int).skip(1) =~= y@.skip(i + 1));
            assert(x@.take(i + 1) =~= x@.take(i as int).push(x@[i as int]));
            assert(y@.take(i + 1) =~= y@.take(i as int).push(y@[i as int]));
        }
        i += 1;
    }
    if i == x.len() && i == y.len() {
        assert(x@.take(i as int) =~= x@);
        assert(y@.take(i as int) =~= y@);
        proof {
            lemma_text_lt_irreflexive(x@);
        }
        0
    } else if i == x.len() {
        assert(x@ != y@);
        -1
    } else if i == y.len() {
        assert(x@ != y@);
        1
    } else {
        assert(x@[i as int] != y@[i as int]);
        if x[i] < y[i] {
            -1
        } else {
            1
        }
    }
}

/// `keys_lt` is transitive on keys of one length.
pub proof fn lemma_keys_lt_transitive(a: Seq<Seq<char>>, b: Seq<Seq<char>>, c: Seq<Seq<char>>)
    requires
        a.len() == b.len() == c.len(),
        keys_lt(a, b),
        keys_lt(b, c),
    ensures
        keys_lt(a, c),
    decreases a.len(),
{
    if a.len() > 0 {
        if a[0] == b[0] && b[0] == c[0] {
            lemma_keys_lt_transitive(a.skip(1), b.skip(1), c.skip(1));
        } else if a[0] == b[0] {
        } else if b[0] == c[0] {
        } else {
            lemma_text_lt_transitive(a[0], b[0], c[0]);
            lemma_text_lt_asymmetric(a[0], b[0]);
        }
    }
}

/// Of two different keys of one length one comes before the other.
pub proof fn lemma_keys_lt_total(a: Seq<Seq<char>>, b: Seq<Seq<char>>)
    requires
        a.len() == b.len(),
    ensures
        a == b || keys_lt(a, b) || keys_lt(b, a),
    decreases a.len(),
{
    if a.len() > 0 {
        if a[0] == b[0] {
            lemma_keys_lt_total(a.skip(1), b.skip(1));
            if a.skip(1) == b.skip(1) {
                assert(a =~= seq![a[0]] + a.skip(1));
                assert(b =~= seq![b[0]] + b.skip(1));
            }
        } else {
            lemma_text_lt_total(a[0], b[0]);
        }
    } else {
        assert(a =~= b);
    }
}

/// The texts of a list of string slices.
pub open spec fn texts(s: Seq<&str>) -> Seq<Seq<char>> {
    s.map_values(|t: &str| t@)
}

/// Whether the key `a` comes strictly before the key `b`, component by component.
pub(crate) fn keys_before(a: &[&str], b: &[&str]) -> (r: bool)
    requires
        a.len() == b.len(),
    ensures
        r == keys_lt(texts(a@), texts(b@)),
{
    let ghost ka = texts(a@);
    let ghost kb = texts(b@);
    let mut i: usize = 0;
    assert(ka.skip(0) =~= ka);
    assert(kb.skip(0) =~= kb);
    while i < a.len()
        invariant
            i <= a.len() == b.len(),
            ka == texts(a@),
            kb == texts(b@),
            keys_lt(ka, kb) == keys_lt(ka.skip(i as int), kb.skip(i as int)),
        decreases a.len() - i,
    {
        let c = compare_text(a[i], b[i]);
        proof {
            assert(ka.skip(i as int)[0] == a@[i as int]@);
            assert(kb.skip(i as int)[0] == b@[i as int]@);
            assert(ka.skip(i as int).skip(1) =~= ka.skip(i + 1));
            assert(kb.skip(i as int).skip(1) =~= kb.skip(i + 1));
        }
        if c != 0 {
            return c < 0;
        }
        i += 1;
    }
    false
}

/// A way to order items of type `T`: by a key made of texts, read off the
/// item's view.
pub trait Order<T: View> {
    /// The key that an item is ordered by.
    spec fn key(&self, item: T::V) -> Seq<Seq<char>>;

    /// Whether `a` comes strictly before `b`.
    fn before(&self, a: &T, b: &T) -> (r: bool)
        ensures
            r == keys_lt(self.key(a@), self.key(b@)),
    ;
}

/// `s` with `x` put in behind the last item that `x` does not come before,
/// looking from the end.
pub open spec fn insert_sorted<T: View, O: Order<T>>(order: O, s: Seq<T::V>, x: T::V) -> Seq<T::V>
    decreases s.len(),
{
    if s.len() > 0 && keys_lt(order.key(x), order.key(s.last())) {
        insert_sorted::<T, O>(order, s.drop_last(), x).push(s.last())
    } else {
        s.push(x)
    }
}

/// The items of `s` in ascending order of their keys, items with equal keys
/// in the order in which they stand in `s`.
pub open spec fn sorted_by<T: View, O: Order<T>>(order: O, s: Seq<T::V>) -> Seq<T::V>
    decreases s.len(),
{
    if s.len() == 0 {
        s
    } else {
        insert_sorted::<T, O>(order, sorted_by::<T, O>(order, s.drop_last()), s.last())
    }
}

/// Whether no item of `s` comes strictly before the one in front of it.
pub open spec fn ordered<T: View, O: Order<T>>(order: O, s: Seq<T::V>) -> bool {
    forall|i: int|
        0 <= i < s.len() - 1 ==> !keys_lt(order.key(#[trigger] s[i + 1]), order.key(s[i]))
}

/// Putting an item into an ordered sequence keeps it ordered and adds
/// just that item.
pub proof fn lemma_insert_sorted<T: View, O: Order<T>>(order: O, s: Seq<T::V>, x: T::V)
    requires
        ordered::<T, O>(order, s),
    ensures
        ordered::<T, O>(order, insert_sorted::<T, O>(order, s, x)),
        insert_sorted::<T, O>(order, s, x).len() == s.len() + 1,
        insert_sorted::<T, O>(order, s, x).to_multiset() == s.to_multiset().insert(x),
        insert_sorted::<T, O>(order, s, x).last() == x || (s.len() > 0 && insert_sorted::<T, O>(
            order,
            s,
            x,
        ).last() == s.last() && keys_lt(order.key(x), order.key(s.last()))),
    decreases s.len(),
{
    broadcast use vstd::seq_lib::to_multiset_build;

    let r = insert_sorted::<T, O>(order, s, x);
    if s.len() > 0 && keys_lt(order.key(x), order.key(s.last())) {
        let init = s.drop_last();
        assert forall|i: int| 0 <= i < init.len() - 1 implies !keys_lt(
            order.key(#[trigger] init[i + 1]),
            order.key(init[i]),
        ) by {
            assert(init[i + 1] == s[i + 1]);
        }
        lemma_insert_sorted::<T, O>(order, init, x);
        let mid = insert_sorted::<T, O>(order, init, x);
        assert(r == mid.push(s.last()));
        assert forall|i: int| 0 <= i < r.len() - 1 implies !keys_lt(
            order.key(#[trigger] r[i + 1]),
            order.key(r[i]),
        ) by {
            if i + 1 < mid.len() {
                assert(r[i + 1] == mid[i + 1]);
                assert(r[i] == mid[i]);
            } else {
                assert(r[i + 1] == s.last());
                assert(r[i] == mid.last());
                if mid.last() == x {
                    lemma_keys_lt_asymmetric(order.key(x), order.key(s.last()));
                } else {
                    assert(mid.last() == init.last());
                    assert(init.last() == s[s.len() - 2]);
                    assert(s.last() == s[s.len() - 2 + 1]);
                }
            }
        }
        assert(s =~= init.push(s.last()));
        assert(r.to_multiset() =~= s.to_multiset().insert(x));
    } else {
        assert forall|i: int| 0 <= i < r.len() - 1 implies !keys_lt(
            order.key(#[trigger] r[i + 1]),
            order.key(r[i]),
        ) by {
            if i + 1 < s.len() {
                assert(r[i + 1] == s[i + 1]);
            }
        }
    }
}

/// Sorting arranges: the result is ordered, and holds the same items as
/// often as the input does.
pub proof fn lemma_sorted_by<T: View, O: Order<T>>(order: O, s: Seq<T::V>)
    ensures
        ordered::<T, O>(order, sorted_by::<T, O>(order, s)),
        sorted_by::<T, O>(order, s).len() == s.len(),
        sorted_by::<T, O>(order, s).to_multiset() == s.to_multiset(),
    decreases s.len(),
{
    broadcast use vstd::seq_lib::to_multiset_build;

    if s.len() > 0 {
        lemma_sorted_by::<T, O>(order, s.drop_last());
        lemma_insert_sorted::<T, O>(order, sorted_by::<T, O>(order, s.drop_last()), s.last());
        assert(s =~= s.drop_last().push(s.last()));
    }
}

/// Sorts `v` by `order`; items with equal keys keep their order.
pub fn sort_by<T: View, O: Order<T>>(v: &mut Vec<T>, order: &O)
    ensures
        views(final(v)@) == sorted_by::<T, O>(*order, views(old(v)@)),
{
    let mut i: usize = 0;
    let n = v.len();
    let ghost input = views(old(v)@);
    assert(views(v@).take(0) =~= sorted_by::<T, O>(*order, input.take(0)));
    while i < n
        invariant
            i <= n == v.len() == input.len(),
            input == views(old(v)@),
            views(v@).take(i as int) == sorted_by::<T, O>(*order, input.take(i as int)),
            views(v@).skip(i as int) == input.skip(i as int),
        decreases n - i,
    {
        let ghost whole = views(v@);
        let ghost prefix = whole.take(i as int);
        let ghost rest = whole.skip(i + 1);
        let x = v.remove(i);
        assert(x@ == input[i as int]) by {
            assert(whole.skip(i as int)[0] == input.skip(i as int)[0]);
        }
        assert(views(v@) =~= prefix + rest);
        let mut j: usize = i;
        assert(prefix.take(j as int) =~= prefix);
        while j > 0 && order.before(&x, &v[j - 1])
            invariant
                j <= i < n,
                v.len() == n - 1,
                views(v@) == prefix + rest,
                prefix.len() == i,
                insert_sorted::<T, O>(*order, prefix, x@) == insert_sorted::<T, O>(
                    *order,
                    prefix.take(j as int),
                    x@,
                ) + prefix.skip(j as int),
            decreases j,
        {
            proof {
                let head = prefix.take(j as int);
                assert(head.last() == views(v@)[j - 1]);
                assert(head.drop_last() =~= prefix.take(j - 1));
                assert(insert_sorted::<T, O>(*order, head, x@) == insert_sorted::<T, O>(
                    *order,
                    prefix.take(j - 1),
                    x@,
                ).push(head.last()));
                assert(insert_sorted::<T, O>(*order, prefix.take(j - 1), x@).push(head.last())
                    + prefix.skip(j as int) =~= insert_sorted::<T, O>(
                    *order,
                    prefix.take(j - 1),
                    x@,
                ) + prefix.skip(j - 1));
            }
            j -= 1;
        }
        proof {
            let head = prefix.take(j as int);
            if j > 0 {
                assert(head.last() == views(v@)[j - 1]);
            }
            assert(insert_sorted::<T, O>(*order, head, x@) == head.push(x@));
        }
        v.insert(j, x);
        proof {
            let placed = insert_sorted::<T, O>(*order, prefix, x@);
            assert(views(v@) =~= placed + rest);
            assert(views(v@).take(i + 1) =~= placed);
            assert(input.take(i + 1).drop_last() =~= input.take(i as int));
            assert(input.take(i + 1).last() == x@);
            assert(views(v@).skip(i + 1) =~= rest);
            assert(rest =~= input.skip(i + 1)) by {
                assert forall|k: int| 0 <= k < rest.len() implies rest[k] == input.skip(i + 1)[k] by {
                    assert(whole.skip(i as int)[k + 1] == input.skip(i as int)[k + 1]);
                }
            }
        }
        i += 1;
    }
    assert(views(v@).take(n as int) =~= views(v@));
    assert(input.take(n as int) =~= input);
}

/// Whether every item of `s` comes strictly before the one behind it.
pub open spec fn strictly_ordered<T: View, O: Order<T>>(order: O, s: Seq<T::V>) -> bool {
    forall|i: int, j: int|
        0 <= i < j < s.len() ==> keys_lt(order.key(#[trigger] s[i]), order.key(#[trigger] s[j]))
}

/// Whether the keys of the items of `s` are all of one length and no two
/// items share a key.
pub open spec fn distinct_keys<T: View, O: Order<T>>(order: O, s: Seq<T::V>, width: nat) -> bool {
    &&& forall|i: int| 0 <= i < s.len() ==> order.key(#[trigger] s[i]).len() == width
    &&& forall|i: int, j: int|
        0 <= i < s.len() && 0 <= j < s.len() && i != j ==> order.key(#[trigger] s[i])
            != order.key(#[trigger] s[j])
}

/// An ordered sequence whose items have distinct keys is strictly ordered.
pub proof fn lemma_ordered_is_strict<T: View, O: Order<T>>(order: O, s: Seq<T::V>, width: nat)
    requires
        ordered::<T, O>(order, s),
        distinct_keys::<T, O>(order, s, width),
    ensures
        strictly_ordered::<T, O>(order, s),
    decreases s.len(),
{
    if s.len() > 1 {
        let init = s.drop_last();
        assert forall|i: int| 0 <= i < init.len() - 1 implies !keys_lt(
            order.key(#[trigger] init[i + 1]),
            order.key(init[i]),
        ) by {
            assert(init[i + 1] == s[i + 1]);
            assert(init[i] == s[i]);
        }
        assert(distinct_keys::<T, O>(order, init, width)) by {
            assert forall|i: int| 0 <= i < init.len() implies order.key(#[trigger] init[i]).len()
                == width by {
                assert(init[i] == s[i]);
            }
            assert forall|i: int, j: int|
                0 <= i < init.len() && 0 <= j < init.len() && i != j implies order.key(
                #[trigger] init[i],
            ) != order.key(#[trigger] init[j]) by {
                assert(init[i] == s[i]);
                assert(init[j] == s[j]);
            }
        }
        lemma_ordered_is_strict::<T, O>(order, init, width);
        let last = s.len() - 1;
        assert forall|i: int, j: int| 0 <= i < j < s.len() implies keys_lt(
            order.key(#[trigger] s[i]),
            order.key(#[trigger] s[j]),
        ) by {
            if j < last {
                assert(init[i] == s[i]);
                assert(init[j] == s[j]);
            } else {
                // the one before the last comes before the last
                assert(!keys_lt(order.key(s[last - 1 + 1]), order.key(s[last - 1])));
                lemma_keys_lt_total(order.key(s[last - 1]), order.key(s[last]));
                if i < last - 1 {
                    assert(init[i] == s[i]);
                    assert(init[last - 1] == s[last - 1]);
                    lemma_keys_lt_transitive(
                        order.key(s[i]),
                        order.key(s[last - 1]),
                        order.key(s[last]),
                    );
                }
            }
        }
    }
}

/// Two strictly ordered sequences that hold the same items are one sequence.
pub proof fn lemma_strict_order_is_unique<T: View, O: Order<T>>(
    order: O,
    a: Seq<T::V>,
    b: Seq<T::V>,
)
    requires
        strictly_ordered::<T, O>(order, a),
        strictly_ordered::<T, O>(order, b),
        a.to_multiset() == b.to_multiset(),
    ensures
        a == b,
    decreases a.len(),
{
    broadcast use vstd::seq_lib::to_multiset_build, vstd::seq_lib::to_multiset_contains;

    a.to_multiset_ensures();
    b.to_multiset_ensures();
    assert(a.len() == b.len());
    if a.len() == 0 {
        assert(a =~= b);
    } else {
        let la = a.last();
        let lb = b.last();
        // each last item stands somewhere in the other sequence
        assert(a.contains(la)) by {
            assert(a[a.len() - 1] == la);
        }
        assert(b.contains(lb)) by {
            assert(b[b.len() - 1] == lb);
        }
        assert(b.to_multiset().count(la) > 0);
        assert(a.to_multiset().count(lb) > 0);
        assert(b.contains(la));
        assert(a.contains(lb));
        let ia = choose|i: int| 0 <= i < b.len() && b[i] == la;
        let ib = choose|i: int| 0 <= i < a.len() && a[i] == lb;
        if la != lb {
            // then `la` comes before `lb` in `b`, and `lb` before `la` in `a`
            assert(ia < b.len() - 1);
            assert(ib < a.len() - 1);
            assert(keys_lt(order.key(b[ia]), order.key(b[b.len() - 1])));
            assert(keys_lt(order.key(a[ib]), order.key(a[a.len() - 1])));
            lemma_keys_lt_asymmetric(order.key(la), order.key(lb));
        }
        assert(la == lb);
        let ai = a.drop_last();
        let bi = b.drop_last();
        assert(a =~= ai.push(la));
        assert(b =~= bi.push(lb));
        assert(ai.to_multiset() =~= a.to_multiset().remove(la));
        assert(bi.to_multiset() =~= b.to_multiset().remove(lb));
        assert forall|i: int, j: int| 0 <= i < j < ai.len() implies keys_lt(
            order.key(#[trigger] ai[i]),
            order.key(#[trigger] ai[j]),
        ) by {
            assert(ai[i] == a[i] && ai[j] == a[j]);
        }
        assert forall|i: int, j: int| 0 <= i < j < bi.len() implies keys_lt(
            order.key(#[trigger] bi[i]),
            order.key(#[trigger] bi[j]),
        ) by {
            assert(bi[i] == b[i] && bi[j] == b[j]);
        }
        lemma_strict_order_is_unique::<T, O>(order, ai, bi);
    }
}

/// Rearranging keeps keys distinct.
pub proof fn lemma_distinct_keys_rearranged<T: View, O: Order<T>>(
    order: O,
    a: Seq<T::V>,
    b: Seq<T::V>,
    width: nat,
)
    requires
        distinct_keys::<T, O>(order, a, width),
        a.to_multiset() == b.to_multiset(),
    ensures
        distinct_keys::<T, O>(order, b, width),
    decreases a.len(),
{
    broadcast use vstd::seq_lib::to_multiset_build, vstd::seq_lib::to_multiset_contains;

    a.to_multiset_ensures();
    b.to_multiset_ensures();
    assert forall|i: int| 0 <= i < b.len() implies order.key(#[trigger] b[i]).len() == width by {
        assert(b.contains(b[i]));
        assert(a.to_multiset().count(b[i]) > 0);
        assert(a.contains(b[i]));
        let x = choose|x: int| 0 <= x < a.len() && a[x] == b[i];
        assert(order.key(a[x]).len() == width);
    }
    assert forall|i: int, j: int|
        0 <= i < b.len() && 0 <= j < b.len() && i != j implies order.key(#[trigger] b[i])
        != order.key(#[trigger] b[j]) by {
        if order.key(b[i]) == order.key(b[j]) {
            assert(b.contains(b[i]));
            assert(b.contains(b[j]));
            assert(a.to_multiset().count(b[i]) > 0);
            assert(a.to_multiset().count(b[j]) > 0);
            assert(a.contains(b[i]));
            assert(a.contains(b[j]));
            let x = choose|x: int| 0 <= x < a.len() && a[x] == b[i];
            let y = choose|y: int| 0 <= y < a.len() && a[y] == b[j];
            assert(x == y);
            assert(b[i] == b[j]);
            lemma_counted_twice(b, i, j);
            lemma_counted_once::<T, O>(order, a, x, width);
        }
    }
}

/// An item that stands at two positions is counted at least twice.
pub proof fn lemma_counted_twice<A>(s: Seq<A>, i: int, j: int)
    requires
        0 <= i < s.len(),
        0 <= j < s.len(),
        i != j,
        s[i] == s[j],
    ensures
        s.to_multiset().count(s[i]) >= 2,
    decreases s.len(),
{
    broadcast use vstd::seq_lib::to_multiset_build, vstd::seq_lib::to_multiset_contains;

    let last = s.len() - 1;
    let init = s.drop_last();
    assert(s =~= init.push(s.last()));
    if i == last || j == last {
        let other = if i == last {
            j
        } else {
            i
        };
        assert(init[other] == s[i]);
        assert(init.contains(s[i]));
        assert(init.to_multiset().count(s[i]) > 0);
    } else {
        lemma_counted_twice(init, i, j);
    }
}

/// An item whose key no other item shares is counted once.
pub proof fn lemma_counted_once<T: View, O: Order<T>>(order: O, s: Seq<T::V>, x: int, width: nat)
    requires
        0 <= x < s.len(),
        distinct_keys::<T, O>(order, s, width),
    ensures
        s.to_multiset().count(s[x]) == 1,
    decreases s.len(),
{
    broadcast use vstd::seq_lib::to_multiset_build, vstd::seq_lib::to_multiset_contains;

    let last = s.len() - 1;
    let init = s.drop_last();
    assert(s =~= init.push(s.last()));
    assert(distinct_keys::<T, O>(order, init, width)) by {
        assert forall|i: int| 0 <= i < init.len() implies order.key(#[trigger] init[i]).len()
            == width by {
            assert(init[i] == s[i]);
        }
        assert forall|i: int, j: int|
            0 <= i < init.len() && 0 <= j < init.len() && i != j implies order.key(
            #[trigger] init[i],
        ) != order.key(#[trigger] init[j]) by {
            assert(init[i] == s[i]);
            assert(init[j] == s[j]);
        }
    }
    if x == last {
        if init.contains(s[x]) {
            let k = choose|k: int| 0 <= k < init.len() && init[k] == s[x];
            assert(s[k] == s[x]);
            assert(order.key(s[k]) == order.key(s[x]));
        }
        assert(init.to_multiset().count(s[x]) == 0);
    } else {
        lemma_counted_once::<T, O>(order, init, x, width);
        assert(order.key(s[x]) != order.key(s[last]));
    }
}

/// Sorting does not depend on the order in which the items come, as long as
/// no two of them share a key: two sequences that hold the same items are
/// sorted into one and the same sequence.
pub proof fn lemma_sorted_by_any_order<T: View, O: Order<T>>(
    order: O,
    a: Seq<T::V>,
    b: Seq<T::V>,
    width: nat,
)
    requires
        a.to_multiset() == b.to_multiset(),
        distinct_keys::<T, O>(order, a, width),
    ensures
        sorted_by::<T, O>(order, a) == sorted_by::<T, O>(order, b),
{
    let sa = sorted_by::<T, O>(order, a);
    let sb = sorted_by::<T, O>(order, b);
    lemma_sorted_by::<T, O>(order, a);
    lemma_sorted_by::<T, O>(order, b);
    lemma_distinct_keys_rearranged::<T, O>(order, a, sa, width);
    lemma_distinct_keys_rearranged::<T, O>(order, a, sb, width);
    lemma_ordered_is_strict::<T, O>(order, sa, width);
    lemma_ordered_is_strict::<T, O>(order, sb, width);
    lemma_strict_order_is_unique::<T, O>(order, sa, sb);
}

} // verus!
