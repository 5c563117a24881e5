//! Stable sorting by keys.

use vstd::prelude::*;

verus! {

/// A type whose values can be sorted.
pub trait Ordered {
    /// `self` does not come after `other`.
    spec fn at_most(&self, other: &Self) -> bool;

    /// Of any two values one does not come after the other.
    proof fn order_is_total(a: &Self, b: &Self)
        ensures
            a.at_most(b) || b.at_most(a),
    ;

    /// The order carries over from pair to pair.
    proof fn order_is_transitive(a: &Self, b: &Self, c: &Self)
        requires
            a.at_most(b),
            b.at_most(c),
        ensures
            a.at_most(c),
    ;

    /// Whether `self` does not come after `other`.
    fn is_at_most(&self, other: &Self) -> (r: bool)
        ensures
            r == self.at_most(other),
    ;
}

/// Place `a` comes before place `b` in a stable sort of `keys`: its key is
/// smaller, or the keys are equal in the order and `a` is the earlier place.
pub open spec fn precedes<K: Ordered>(keys: Seq<K>, a: int, b: int) -> bool {
    keys[a].at_most(&keys[b]) && (keys[b].at_most(&keys[a]) ==> a < b)
}

/// `order` lists the places `lo..hi` of `keys`, each once, in stable order.
pub open spec fn stable_order_of<K: Ordered>(
    keys: Seq<K>,
    lo: int,
    hi: int,
    order: Seq<usize>,
) -> bool {
    &&& order.len() == hi - lo
    &&& forall|i: int| 0 <= i < order.len() ==> lo <= #[trigger] order[i] < hi
    &&& forall|p: usize| lo <= p < hi ==> #[trigger] order.contains(p)
    &&& forall|i: int, j: int|
        0 <= i < j < order.len() ==> precedes(
            keys,
            #[trigger] order[i] as int,
            #[trigger] order[j] as int,
        )
}

/// `order` lists all places of `keys`, each once, in stable order.
pub open spec fn stable_order<K: Ordered>(keys: Seq<K>, order: Seq<usize>) -> bool {
    stable_order_of(keys, 0, keys.len() as int, order)
}

proof fn lemma_precedes_transitive<K: Ordered>(keys: Seq<K>, a: int, b: int, c: int)
    requires
        precedes(keys, a, b),
        precedes(keys, b, c),
    ensures
        precedes(keys, a, c),
{
    K::order_is_transitive(&keys[a], &keys[b], &keys[c]);
    if keys[c].at_most(&keys[a]) {
        K::order_is_transitive(&keys[c], &keys[a], &keys[b]);
        K::order_is_transitive(&keys[b], &keys[c], &keys[a]);
    }
}

/// Two stable orders of the same keys are the same.
pub proof fn law_stable_order_is_unique<K: Ordered>(keys: Seq<K>, a: Seq<usize>, b: Seq<usize>)
    requires
        stable_order(keys, a),
        stable_order(keys, b),
    ensures
        a == b,
{
    lemma_orders_agree(keys, a, b, a.len() as int);
    assert(a =~= b);
}

/// The first `n` places of two stable orders are the same.
proof fn lemma_orders_agree<K: Ordered>(keys: Seq<K>, a: Seq<usize>, b: Seq<usize>, n: int)
    requires
        stable_order(keys, a),
        stable_order(keys, b),
        0 <= n <= a.len(),
    ensures
        forall|i: int| 0 <= i < n ==> a[i] == b[i],
    decreases n,
{
    if n > 0 {
        lemma_orders_agree(keys, a, b, n - 1);
        let i = n - 1;
        if a[i] != b[i] {
            assert(b.contains(a[i]));
            assert(a.contains(b[i]));
            let p = choose|p: int| 0 <= p < b.len() && b[p] == a[i];
            let q = choose|q: int| 0 <= q < a.len() && a[q] == b[i];
            if p < i {
                assert(a[p] == b[p]);
                assert(precedes(keys, a[p] as int, a[i] as int));
            }
            if q < i {
                assert(b[q] == a[q]);
                assert(precedes(keys, b[q] as int, b[i] as int));
            }
            assert(p > i && q > i);
            assert(precedes(keys, b[i] as int, b[p] as int));
            assert(precedes(keys, a[i] as int, a[q] as int));
            assert(false);
        }
    }
}

/// The values in the given order of places.
pub open spec fn arranged<V>(values: Seq<V>, order: Seq<usize>) -> Seq<V> {
    Seq::new(order.len(), |i: int| values[order[i] as int])
}

/// `order` lists the places of `values`, each once.
pub open spec fn lists_places(n: int, order: Seq<usize>) -> bool {
    &&& order.len() == n
    &&& order.no_duplicates()
    &&& forall|i: int| 0 <= i < n ==> #[trigger] order[i] < n
    &&& forall|p: usize| p < n ==> #[trigger] order.contains(p)
}

/// A stable order lists each place once.
pub proof fn lemma_order_lists_places<K: Ordered>(keys: Seq<K>, order: Seq<usize>)
    requires
        stable_order(keys, order),
    ensures
        lists_places(keys.len() as int, order),
{
    assert forall|i: int, j: int|
        0 <= i < order.len() && 0 <= j < order.len() && i != j implies order[i] != order[j] by {
        if i < j {
            assert(precedes(keys, order[i] as int, order[j] as int));
        } else {
            assert(precedes(keys, order[j] as int, order[i] as int));
        }
    }
}

/// Sorting neither adds nor loses a value.
pub proof fn law_arranging_keeps_values<V>(values: Seq<V>, order: Seq<usize>)
    requires
        values.len() <= usize::MAX,
        lists_places(values.len() as int, order),
    ensures
        arranged(values, order).to_multiset() == values.to_multiset(),
    decreases values.len(),
{
    broadcast use vstd::seq_lib::group_to_multiset_ensures;

    let n = values.len() as int;
    if n == 0 {
        assert(arranged(values, order) =~= values);
    } else {
        let last = (n - 1) as usize;
        assert(order.contains(last));
        let p = choose|p: int| 0 <= p < order.len() && order[p] == last;
        let rest = values.drop_last();
        let fewer = order.remove(p);
        assert forall|i: int| 0 <= i < n - 1 implies #[trigger] fewer[i] < n - 1 by {
            let j = if i < p { i } else { i + 1 };
            assert(fewer[i] == order[j]);
            assert(order[j] != order[p]);
            assert(order[j] < n);
        }
        assert forall|q: usize| q < n - 1 implies #[trigger] fewer.contains(q) by {
            assert(order.contains(q));
            let i = choose|i: int| 0 <= i < order.len() && order[i] == q;
            assert(i != p);
            let j = if i < p { i } else { i - 1 };
            assert(fewer[j] == q);
        }
        law_arranging_keeps_values(rest, fewer);
        let all = arranged(values, order);
        assert(all.remove(p) =~= arranged(rest, fewer));
        assert(all[p] == values[n - 1]);
        assert(values =~= rest.push(values[n - 1]));
        assert(all =~= all.remove(p).insert(p, values[n - 1]));
    }
}

/// How many leading places of `order` have keys that do not come after `key`,
/// among the first `n`.
proof fn lemma_split_point<K: Ordered>(
    keys: Seq<K>,
    order: Seq<usize>,
    key: &K,
    n: int,
) -> (at: int)
    requires
        0 <= n <= order.len(),
        forall|i: int, j: int|
            0 <= i < j < order.len() ==> precedes(
                keys,
                #[trigger] order[i] as int,
                #[trigger] order[j] as int,
            ),
    ensures
        0 <= at <= n,
        forall|i: int| 0 <= i < at ==> keys[#[trigger] order[i] as int].at_most(key),
        forall|i: int| at <= i < n ==> !keys[#[trigger] order[i] as int].at_most(key),
    decreases n,
{
    if n == 0 {
        0
    } else {
        let before = lemma_split_point(keys, order, key, n - 1);
        if keys[order[n - 1] as int].at_most(key) {
            assert forall|i: int| 0 <= i < n implies keys[#[trigger] order[i] as int].at_most(
                key,
            ) by {
                if i < n - 1 {
                    assert(precedes(keys, order[i] as int, order[n - 1] as int));
                    K::order_is_transitive(
                        &keys[order[i] as int],
                        &keys[order[n - 1] as int],
                        key,
                    );
                }
            }
            n
        } else {
            before
        }
    }
}

/// Some stable order of the first `n` places exists.
proof fn lemma_order_exists<K: Ordered>(keys: Seq<K>, n: int) -> (order: Seq<usize>)
    requires
        0 <= n <= keys.len() <= usize::MAX,
    ensures
        stable_order_of(keys, 0, n, order),
    decreases n,
{
    if n == 0 {
        Seq::<usize>::empty()
    } else {
        let rest = lemma_order_exists(keys, n - 1);
        let p = (n - 1) as usize;
        let at = lemma_split_point(keys, rest, &keys[n - 1], n - 1);
        let order = rest.insert(at, p);
        assert forall|q: usize| 0 <= q < n implies #[trigger] order.contains(q) by {
            if q == p {
                assert(order[at] == q);
            } else {
                assert(rest.contains(q));
                let i = choose|i: int| 0 <= i < rest.len() && rest[i] == q;
                if i < at {
                    assert(order[i] == q);
                } else {
                    assert(order[i + 1] == q);
                }
            }
        }
        assert forall|i: int, j: int| 0 <= i < j < order.len() implies precedes(
            keys,
            #[trigger] order[i] as int,
            #[trigger] order[j] as int,
        ) by {
            if i == at {
                K::order_is_total(&keys[n - 1], &keys[rest[j - 1] as int]);
            } else if j == at {
            } else {
                let k = if i < at { i } else { i - 1 };
                let l = if j < at { j } else { j - 1 };
                assert(precedes(keys, rest[k] as int, rest[l] as int));
            }
        }
        order
    }
}

/// Every sequence of keys has a stable order.
pub proof fn law_stable_order_exists<K: Ordered>(keys: Seq<K>)
    requires
        keys.len() <= usize::MAX,
    ensures
        exists|order: Seq<usize>| stable_order(keys, order),
{
    let order = lemma_order_exists(keys, keys.len() as int);
    assert(stable_order(keys, order));
}

/// Merges the stable orders of two neighbouring stretches.
fn merge<K: Ordered>(
    keys: &Vec<K>,
    left: &Vec<usize>,
    right: &Vec<usize>,
    lo: usize,
    mid: usize,
    hi: usize,
) -> (order: Vec<usize>)
    requires
        lo <= mid <= hi <= keys@.len(),
        stable_order_of(keys@, lo as int, mid as int, left@),
        stable_order_of(keys@, mid as int, hi as int, right@),
    ensures
        stable_order_of(keys@, lo as int, hi as int, order@),
{
    let mut order: Vec<usize> = Vec::new();
    let mut i: usize = 0;
    let mut j: usize = 0;
    while i < left.len() || j < right.len()
        invariant
            lo <= mid <= hi <= keys@.len(),
            stable_order_of(keys@, lo as int, mid as int, left@),
            stable_order_of(keys@, mid as int, hi as int, right@),
            i <= left@.len(),
            j <= right@.len(),
            order@.len() == i + j,
            forall|k: int| 0 <= k < order@.len() ==> lo <= #[trigger] order@[k] < hi,
            forall|k: int| 0 <= k < i ==> #[trigger] order@.contains(left@[k]),
            forall|k: int| 0 <= k < j ==> #[trigger] order@.contains(right@[k]),
            forall|k: int, l: int|
                0 <= k < l < order@.len() ==> precedes(
                    keys@,
                    #[trigger] order@[k] as int,
                    #[trigger] order@[l] as int,
                ),
            forall|k: int, l: int|
                0 <= k < order@.len() && i <= l < left@.len() ==> precedes(
                    keys@,
                    #[trigger] order@[k] as int,
                    #[trigger] left@[l] as int,
                ),
            forall|k: int, l: int|
                0 <= k < order@.len() && j <= l < right@.len() ==> precedes(
                    keys@,
                    #[trigger] order@[k] as int,
                    #[trigger] right@[l] as int,
                ),
        decreases left.len() - i + right.len() - j,
    {
        let take_left = if j == right.len() {
            true
        } else if i == left.len() {
            false
        } else {
            keys[left[i]].is_at_most(&keys[right[j]])
        };
        let ghost before = order@;
        if take_left {
            let p: usize = left[i];
            proof {
                assert forall|l: int| j <= l < right@.len() implies precedes(
                    keys@,
                    p as int,
                    #[trigger] right@[l] as int,
                ) by {
                    assert(precedes(keys@, p as int, right@[j as int] as int));
                    if l > j {
                        lemma_precedes_transitive(
                            keys@,
                            p as int,
                            right@[j as int] as int,
                            right@[l] as int,
                        );
                    }
                }
            }
            order.push(p);
            i = i + 1;
            assert(order@[before.len() as int] == p);
        } else {
            let p: usize = right[j];
            proof {
                if i < left@.len() {
                    K::order_is_total(&keys@[left@[i as int] as int], &keys@[p as int]);
                }
                assert forall|l: int| i <= l < left@.len() implies precedes(
                    keys@,
                    p as int,
                    #[trigger] left@[l] as int,
                ) by {
                    assert(precedes(keys@, p as int, left@[i as int] as int));
                    if l > i {
                        lemma_precedes_transitive(
                            keys@,
                            p as int,
                            left@[i as int] as int,
                            left@[l] as int,
                        );
                    }
                }
            }
            order.push(p);
            j = j + 1;
            assert(order@[before.len() as int] == p);
        }
        proof {
            assert forall|k: int| 0 <= k < i implies #[trigger] order@.contains(left@[k]) by {
                if before.contains(left@[k]) {
                    let w = choose|w: int| 0 <= w < before.len() && before[w] == left@[k];
                    assert(order@[w] == left@[k]);
                }
            }
            assert forall|k: int| 0 <= k < j implies #[trigger] order@.contains(right@[k]) by {
                if before.contains(right@[k]) {
                    let w = choose|w: int| 0 <= w < before.len() && before[w] == right@[k];
                    assert(order@[w] == right@[k]);
                }
            }
        }
    }
    proof {
        assert forall|p: usize| lo <= p < hi implies #[trigger] order@.contains(p) by {
            if p < mid {
                assert(left@.contains(p));
                let k = choose|k: int| 0 <= k < left@.len() && left@[k] == p;
                assert(order@.contains(left@[k]));
            } else {
                assert(right@.contains(p));
                let k = choose|k: int| 0 <= k < right@.len() && right@[k] == p;
                assert(order@.contains(right@[k]));
            }
        }
    }
    order
}

/// The stable order of the places `lo..hi`.
fn sort_stretch<K: Ordered>(keys: &Vec<K>, lo: usize, hi: usize) -> (order: Vec<usize>)
    requires
        lo <= hi <= keys@.len(),
    ensures
        stable_order_of(keys@, lo as int, hi as int, order@),
    decreases hi - lo,
{
    if hi - lo <= 1 {
        let mut order: Vec<usize> = Vec::new();
        if lo < hi {
            order.push(lo);
            assert(order@[0] == lo);
        }
        return order;
    }
    let mid: usize = lo + (hi - lo) / 2;
    let left = sort_stretch(keys, lo, mid);
    let right = sort_stretch(keys, mid, hi);
    merge(keys, &left, &right, lo, mid, hi)
}

/// The places of `keys` in sorted order; places with equal keys keep their order.
pub fn sort_places<K: Ordered>(keys: &Vec<K>) -> (order: Vec<usize>)
    ensures
        stable_order(keys@, order@),
{
    sort_stretch(keys, 0, keys.len())
}

impl Ordered for usize {
    open spec fn at_most(&self, other: &Self) -> bool {
        *self <= *other
    }

    proof fn order_is_total(a: &Self, b: &Self) {
    }

    proof fn order_is_transitive(a: &Self, b: &Self, c: &Self) {
    }

    fn is_at_most(&self, other: &Self) -> (r: bool) {
        *self <= *other
    }
}

} // verus!
