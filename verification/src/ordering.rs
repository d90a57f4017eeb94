//! Stable ordering by priority: items with a higher priority come first, and
//! items of equal priority keep their relative order.
use vstd::prelude::*;
use vstd::multiset::Multiset;

verus! {

/// Inserts index `i` into `order` before the first index of lower priority.
pub open spec fn insert_by_priority(order: Seq<int>, i: int, prios: Seq<i64>) -> Seq<int>
    decreases order.len(),
{
    if order.len() == 0 {
        seq![i]
    } else if prios[order[0]] < prios[i] {
        seq![i] + order
    } else {
        seq![order[0]] + insert_by_priority(order.drop_first(), i, prios)
    }
}

/// The indices `0..n`, stably ordered by descending priority.
pub open spec fn priority_order(prios: Seq<i64>, n: nat) -> Seq<int>
    decreases n,
{
    if n == 0 {
        Seq::empty()
    } else {
        insert_by_priority(priority_order(prios, (n - 1) as nat), n - 1, prios)
    }
}

/// `items` stably ordered by descending `prios`.
pub open spec fn sort_by_priority<T>(items: Seq<T>, prios: Seq<i64>) -> Seq<T> {
    priority_order(prios, items.len()).map_values(|i: int| items[i])
}

/// `order` lists indices in non-increasing priority.
pub open spec fn descending(order: Seq<int>, prios: Seq<i64>) -> bool {
    forall|a: int, b: int| 0 <= a < b < order.len() ==> prios[order[a]] >= prios[order[b]]
}

/// Inserting `i` into `order` at the first position of lower priority than
/// `i`, when that position is `k`, puts it between `order.take(k)` and the rest.
pub proof fn lemma_insert_split(order: Seq<int>, i: int, prios: Seq<i64>, k: int)
    requires
        0 <= k <= order.len(),
        forall|j: int| 0 <= j < k ==> prios[order[j]] >= prios[i],
        k < order.len() ==> prios[order[k]] < prios[i],
    ensures
        insert_by_priority(order, i, prios) == order.take(k) + seq![i] + order.skip(k),
    decreases order.len(),
{
    if order.len() == 0 {
        assert(order.take(k) + seq![i] + order.skip(k) =~= seq![i]);
    } else if k == 0 {
        assert(order.take(0) + seq![i] + order.skip(0) =~= seq![i] + order);
    } else {
        let rest = order.drop_first();
        assert forall|j: int| 0 <= j < k - 1 implies prios[rest[j]] >= prios[i] by {
            assert(rest[j] == order[j + 1]);
        }
        lemma_insert_split(rest, i, prios, k - 1);
        assert(seq![order[0]] + (rest.take(k - 1) + seq![i] + rest.skip(k - 1)) =~= order.take(k)
            + seq![i] + order.skip(k));
    }
}

/// Inserting into a descending order keeps it descending.
pub proof fn lemma_insert_keeps_descending(order: Seq<int>, i: int, prios: Seq<i64>)
    requires
        descending(order, prios),
    ensures
        descending(insert_by_priority(order, i, prios), prios),
        insert_by_priority(order, i, prios).to_multiset() == order.to_multiset().insert(i),
    decreases order.len(),
{
    broadcast use vstd::seq_lib::group_to_multiset_ensures;
    if order.len() == 0 {
        assert(seq![i].to_multiset() =~= Multiset::empty().insert(i)) by {
            assert(seq![i] =~= Seq::<int>::empty().push(i));
        }
        assert(order =~= Seq::<int>::empty());
    } else if prios[order[0]] < prios[i] {
        let r = seq![i] + order;
        assert forall|a: int, b: int| 0 <= a < b < r.len() implies prios[r[a]] >= prios[r[b]] by {
            if a == 0 {
                assert(prios[order[0]] >= prios[order[b - 1]]) by {
                    if b - 1 > 0 {
                    }
                }
            }
        }
        vstd::seq_lib::lemma_multiset_commutative(seq![i], order);
        assert(seq![i].to_multiset() =~= Multiset::empty().insert(i)) by {
            assert(seq![i] =~= Seq::<int>::empty().push(i));
        }
    } else {
        let rest = order.drop_first();
        assert(descending(rest, prios)) by {
            assert forall|a: int, b: int| 0 <= a < b < rest.len() implies prios[rest[a]] >= prios[rest[b]] by {
                assert(rest[a] == order[a + 1] && rest[b] == order[b + 1]);
            }
        }
        lemma_insert_keeps_descending(rest, i, prios);
        let tail = insert_by_priority(rest, i, prios);
        let r = seq![order[0]] + tail;
        assert forall|a: int, b: int| 0 <= a < b < r.len() implies prios[r[a]] >= prios[r[b]] by {
            if a == 0 {
                assert(tail.to_multiset().count(r[b]) > 0) by {
                    assert(tail.contains(r[b])) by {
                        assert(tail[b - 1] == r[b]);
                    }
                }
                assert(rest.to_multiset().insert(i).count(r[b]) > 0);
                if r[b] != i {
                    assert(rest.contains(r[b]));
                    let j = choose|j: int| 0 <= j < rest.len() && rest[j] == r[b];
                    assert(rest[j] == order[j + 1]);
                }
            } else {
                assert(r[a] == tail[a - 1] && r[b] == tail[b - 1]);
            }
        }
        vstd::seq_lib::lemma_multiset_commutative(seq![order[0]], tail);
        vstd::seq_lib::lemma_multiset_commutative(seq![order[0]], rest);
        assert(order =~= seq![order[0]] + rest);
    }
}

/// The priority order of `0..n` is descending and holds each index once.
pub proof fn lemma_priority_order_sorted(prios: Seq<i64>, n: nat)
    ensures
        descending(priority_order(prios, n), prios),
        priority_order(prios, n).to_multiset() == Seq::new(n, |i: int| i).to_multiset(),
        priority_order(prios, n).len() == n,
    decreases n,
{
    broadcast use vstd::seq_lib::group_to_multiset_ensures;
    if n == 0 {
        assert(Seq::new(0, |i: int| i) =~= Seq::<int>::empty());
    } else {
        lemma_priority_order_sorted(prios, (n - 1) as nat);
        lemma_insert_keeps_descending(priority_order(prios, (n - 1) as nat), n - 1, prios);
        assert(Seq::new(n, |i: int| i) =~= Seq::new((n - 1) as nat, |i: int| i).push(n - 1));
        assert(priority_order(prios, n).len() == priority_order(prios, n).to_multiset().len());
        assert(Seq::new(n, |i: int| i).to_multiset().len() == n);
    }
}

/// The indices of `prios`, stably ordered by descending priority.
pub fn stable_priority_order(prios: &Vec<i64>) -> (order: Vec<usize>)
    ensures
        order@.len() == prios@.len(),
        order@.map_values(|i: usize| i as int) == priority_order(prios@, prios@.len()),
        forall|j: int| 0 <= j < order@.len() ==> order@[j] < prios@.len(),
{
    let mut order: Vec<usize> = Vec::new();
    let mut n: usize = 0;
    while n < prios.len()
        invariant
            n <= prios@.len(),
            order@.map_values(|i: usize| i as int) == priority_order(prios@, n as nat),
            order@.len() == n,
            forall|j: int| 0 <= j < order@.len() ==> order@[j] < n,
        decreases prios.len() - n,
    {
        let ghost before = order@.map_values(|i: usize| i as int);
        proof {
            lemma_priority_order_sorted(prios@, n as nat);
        }
        let mut k: usize = 0;
        while k < order.len() && prios[order[k]] >= prios[n]
            invariant
                k <= order@.len(),
                n < prios@.len(),
                forall|j: int| 0 <= j < order@.len() ==> order@[j] < n,
                forall|j: int| 0 <= j < k ==> prios@[before[j]] >= prios@[n as int],
                before == order@.map_values(|i: usize| i as int),
            decreases order.len() - k,
        {
            k += 1;
        }
        proof {
            lemma_insert_split(before, n as int, prios@, k as int);
        }
        order.insert(k, n);
        proof {
            assert(order@.map_values(|i: usize| i as int) =~= before.take(k as int) + seq![n as int]
                + before.skip(k as int));
        }
        n += 1;
    }
    order
}

} // verus!
