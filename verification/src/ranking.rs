//! Stable ordering of items by non-increasing score.
//!
//! Items are ranked through their indices: `order_desc(keys)` lists the
//! indices of `keys` from the highest key to the lowest, indices with equal
//! keys in their input order (what a stable sort by descending key gives).
use vstd::prelude::*;

verus! {

/// Stable insertion of index `i` into `order`: `i` goes after every index
/// whose key is at least its own.
pub open spec fn insert_by_key(order: Seq<int>, keys: Seq<int>, i: int) -> Seq<int>
    decreases order.len(),
{
    if order.len() == 0 || keys[order.last()] >= keys[i] {
        order.push(i)
    } else {
        insert_by_key(order.drop_last(), keys, i).push(order.last())
    }
}

/// The indices `0..n` ordered by non-increasing key, ties in index order.
pub open spec fn order_first(keys: Seq<int>, n: nat) -> Seq<int>
    decreases n,
{
    if n == 0 {
        Seq::empty()
    } else {
        insert_by_key(order_first(keys, (n - 1) as nat), keys, n - 1)
    }
}

/// All indices of `keys`, ordered by non-increasing key, ties in index order.
pub open spec fn order_desc(keys: Seq<int>) -> Seq<int> {
    order_first(keys, keys.len())
}

/// The items at the given indices, in that order.
pub open spec fn picked<T>(items: Seq<T>, order: Seq<int>) -> Seq<T> {
    Seq::new(order.len(), |j: int| items[order[j]])
}

/// At most the first `n` items.
pub open spec fn at_most<T>(s: Seq<T>, n: nat) -> Seq<T> {
    if s.len() <= n {
        s
    } else {
        s.take(n as int)
    }
}

/// Keys do not increase along `order`.
pub open spec fn keys_non_increasing(keys: Seq<int>, order: Seq<int>) -> bool {
    forall|a: int, b: int|
        0 <= a < b < order.len() ==> keys[#[trigger] order[a]] >= keys[#[trigger] order[b]]
}

/// Indices with equal keys keep their relative order.
pub open spec fn ties_in_index_order(keys: Seq<int>, order: Seq<int>) -> bool {
    forall|a: int, b: int|
        0 <= a < b < order.len() && keys[#[trigger] order[a]] == keys[#[trigger] order[b]]
            ==> order[a] < order[b]
}

/// `order` lists each of `0..n` exactly once.
pub open spec fn is_index_permutation(order: Seq<int>, n: nat) -> bool {
    &&& order.len() == n
    &&& order.no_duplicates()
    &&& forall|j: int| 0 <= j < order.len() ==> 0 <= #[trigger] order[j] < n
}

proof fn lemma_insert_at(order: Seq<int>, keys: Seq<int>, i: int, j: int)
    requires
        0 <= j <= order.len(),
        forall|k: int| j <= k < order.len() ==> keys[#[trigger] order[k]] < keys[i],
        j > 0 ==> keys[order[j - 1]] >= keys[i],
    ensures
        insert_by_key(order, keys, i) == order.insert(j, i),
    decreases order.len(),
{
    if order.len() == 0 || keys[order.last()] >= keys[i] {
        assert(order.push(i) =~= order.insert(j, i));
    } else {
        let d = order.drop_last();
        lemma_insert_at(d, keys, i, j);
        assert(d.insert(j, i).push(order.last()) =~= order.insert(j, i));
    }
}

proof fn lemma_insert_props(order: Seq<int>, keys: Seq<int>, i: int)
    requires
        0 <= i,
        keys_non_increasing(keys, order),
        ties_in_index_order(keys, order),
        order.no_duplicates(),
        forall|j: int| 0 <= j < order.len() ==> 0 <= #[trigger] order[j] < i,
    ensures
        ({
            let r = insert_by_key(order, keys, i);
            &&& r.len() == order.len() + 1
            &&& keys_non_increasing(keys, r)
            &&& ties_in_index_order(keys, r)
            &&& r.no_duplicates()
            &&& forall|j: int| 0 <= j < r.len() ==> 0 <= #[trigger] r[j] <= i
            &&& forall|x: int| r.contains(x) <==> (order.contains(x) || x == i)
        }),
    decreases order.len(),
{
    if order.len() == 0 || keys[order.last()] >= keys[i] {
        let r = order.push(i);
        assert forall|a: int, b: int| 0 <= a < b < r.len() implies keys[#[trigger] r[a]] >= keys[#[trigger] r[b]] by {
            if b == order.len() {
                assert(keys[order[a]] >= keys[order[order.len() - 1]]);
            }
        }
        assert forall|a: int, b: int|
            0 <= a < b < r.len() && keys[#[trigger] r[a]] == keys[#[trigger] r[b]] implies r[a] < r[b] by {
            if b == order.len() {
                assert(r[a] == order[a]);
            }
        }
        assert forall|x: int| r.contains(x) <==> (order.contains(x) || x == i) by {
            if r.contains(x) {
                let k = choose|k: int| 0 <= k < r.len() && r[k] == x;
                if k < order.len() {
                    assert(order[k] == x);
                }
            }
            if order.contains(x) {
                let k = choose|k: int| 0 <= k < order.len() && order[k] == x;
                assert(r[k] == x);
            }
            if x == i {
                assert(r[order.len() as int] == x);
            }
        }
        assert(r.no_duplicates()) by {
            assert forall|a: int, b: int| 0 <= a < r.len() && 0 <= b < r.len() && a != b implies r[a] != r[b] by {
                if a < order.len() && b < order.len() {
                } else if a < order.len() {
                    assert(order[a] < i);
                } else if b < order.len() {
                    assert(order[b] < i);
                }
            }
        }
    } else {
        let d = order.drop_last();
        let last = order.last();
        assert(keys_non_increasing(keys, d));
        assert(ties_in_index_order(keys, d));
        assert(forall|j: int| 0 <= j < d.len() ==> d[j] == order[j]);
        lemma_insert_props(d, keys, i);
        let t = insert_by_key(d, keys, i);
        let r = t.push(last);
        assert(keys[last] < keys[i]);
        assert(last < i);
        assert(!d.contains(last)) by {
            if d.contains(last) {
                let k = choose|k: int| 0 <= k < d.len() && d[k] == last;
                assert(order[k] == order[order.len() - 1]);
            }
        }
        assert forall|a: int, b: int| 0 <= a < b < r.len() implies keys[#[trigger] r[a]] >= keys[#[trigger] r[b]] by {
            if b == t.len() {
                assert(t.contains(t[a]));
                if t[a] != i {
                    assert(d.contains(t[a]));
                    let k = choose|k: int| 0 <= k < d.len() && d[k] == t[a];
                    assert(keys[order[k]] >= keys[order[order.len() - 1]]);
                }
            }
        }
        assert forall|a: int, b: int|
            0 <= a < b < r.len() && keys[#[trigger] r[a]] == keys[#[trigger] r[b]] implies r[a] < r[b] by {
            if b == t.len() {
                assert(t.contains(t[a]));
                assert(t[a] != i);
                assert(d.contains(t[a]));
                let k = choose|k: int| 0 <= k < d.len() && d[k] == t[a];
                assert(keys[order[k]] == keys[order[order.len() - 1]]);
                assert(order[k] < order[order.len() - 1]);
            }
        }
        assert forall|x: int| r.contains(x) <==> (order.contains(x) || x == i) by {
            if r.contains(x) {
                let k = choose|k: int| 0 <= k < r.len() && r[k] == x;
                if k < t.len() {
                    assert(t.contains(x));
                    if d.contains(x) {
                        let k2 = choose|k2: int| 0 <= k2 < d.len() && d[k2] == x;
                        assert(order[k2] == x);
                    }
                } else {
                    assert(order[order.len() - 1] == x);
                }
            }
            if order.contains(x) {
                let k = choose|k: int| 0 <= k < order.len() && order[k] == x;
                if k < d.len() {
                    assert(d[k] == x);
                    assert(d.contains(x));
                    assert(t.contains(x));
                    let k2 = choose|k2: int| 0 <= k2 < t.len() && t[k2] == x;
                    assert(r[k2] == x);
                } else {
                    assert(r[t.len() as int] == x);
                }
            }
            if x == i {
                assert(t.contains(x));
                let k2 = choose|k2: int| 0 <= k2 < t.len() && t[k2] == x;
                assert(r[k2] == x);
            }
        }
        assert(r.no_duplicates()) by {
            assert forall|a: int, b: int| 0 <= a < r.len() && 0 <= b < r.len() && a != b implies r[a] != r[b] by {
                if a < t.len() && b < t.len() {
                } else if a < t.len() {
                    assert(t.contains(t[a]));
                    if t[a] == last {
                        assert(d.contains(last));
                    }
                } else if b < t.len() {
                    assert(t.contains(t[b]));
                    if t[b] == last {
                        assert(d.contains(last));
                    }
                }
            }
        }
        assert forall|j: int| 0 <= j < r.len() implies 0 <= #[trigger] r[j] <= i by {
            if j < t.len() {
                assert(0 <= t[j] <= i);
            }
        }
    }
}

/// The ordering of the first `n` indices is a permutation of them, keys do
/// not increase along it, and equal keys keep index order.
pub proof fn lemma_order_first(keys: Seq<int>, n: nat)
    ensures
        is_index_permutation(order_first(keys, n), n),
        keys_non_increasing(keys, order_first(keys, n)),
        ties_in_index_order(keys, order_first(keys, n)),
    decreases n,
{
    if n > 0 {
        let m = (n - 1) as nat;
        lemma_order_first(keys, m);
        let o = order_first(keys, m);
        lemma_insert_props(o, keys, m as int);
        let r = insert_by_key(o, keys, m as int);
        assert forall|j: int| 0 <= j < r.len() implies 0 <= #[trigger] r[j] < n by {
            assert(0 <= r[j] <= m);
        }
    }
}

/// Ranking by score is a stable descending sort: every index appears once,
/// scores do not increase along the ranking, and equal scores keep their
/// input order.
pub proof fn law_order_desc_is_stable_sort(keys: Seq<int>)
    ensures
        is_index_permutation(order_desc(keys), keys.len()),
        keys_non_increasing(keys, order_desc(keys)),
        ties_in_index_order(keys, order_desc(keys)),
{
    lemma_order_first(keys, keys.len());
}

/// The keys as integers.
pub open spec fn int_keys(keys: Seq<i128>) -> Seq<int> {
    Seq::new(keys.len(), |i: int| keys[i] as int)
}

/// The indices as integers.
pub open spec fn int_indices(v: Seq<usize>) -> Seq<int> {
    Seq::new(v.len(), |i: int| v[i] as int)
}

/// The indices of `keys` in order of non-increasing key, ties in index order.
pub fn stable_order_desc(keys: &Vec<i128>) -> (r: Vec<usize>)
    ensures
        int_indices(r@) == order_desc(int_keys(keys@)),
{
    let ghost ks = int_keys(keys@);
    let mut order: Vec<usize> = Vec::new();
    let mut i: usize = 0;
    while i < keys.len()
        invariant
            i <= keys@.len(),
            ks == int_keys(keys@),
            int_indices(order@) == order_first(ks, i as nat),
            forall|j: int| 0 <= j < order@.len() ==> #[trigger] order@[j] < i,
        decreases keys.len() - i,
    {
        proof {
            lemma_order_first(ks, i as nat);
            assert(order@.len() == i);
        }
        let ghost o = int_indices(order@);
        let mut j: usize = order.len();
        while j > 0 && keys[order[j - 1]] < keys[i]
            invariant
                j <= order@.len(),
                order@.len() == i,
                i < keys@.len(),
                o == int_indices(order@),
                ks == int_keys(keys@),
                forall|t: int| 0 <= t < order@.len() ==> #[trigger] order@[t] < i,
                forall|t: int| j <= t < o.len() ==> ks[#[trigger] o[t]] < ks[i as int],
            decreases j,
        {
            j = j - 1;
        }
        proof {
            lemma_insert_at(o, ks, i as int, j as int);
        }
        let ghost before = order@;
        order.insert(j, i);
        proof {
            assert(int_indices(order@) =~= o.insert(j as int, i as int));
            assert forall|t: int| 0 <= t < order@.len() implies #[trigger] order@[t] < i + 1 by {
                if t < j {
                    assert(order@[t] == before[t]);
                } else if t > j {
                    assert(order@[t] == before[t - 1]);
                }
            }
        }
        i = i + 1;
    }
    order
}

} // verus!
