use vstd::prelude::*;

verus! {

/// `a` comes before `b` when sorted by key, ties kept in position order.
pub open spec fn before(keys: Seq<u32>, a: usize, b: usize) -> bool {
    keys[a as int] < keys[b as int] || (keys[a as int] == keys[b as int] && a < b)
}

/// `order` lists every position of `keys` once, ascending by key, ties in
/// position order: the result of a stable ascending sort.
pub open spec fn is_stable_order(keys: Seq<u32>, order: Seq<usize>) -> bool {
    &&& order.len() == keys.len()
    &&& forall|i: int| 0 <= i < order.len() ==> #[trigger] order[i] < keys.len()
    &&& forall|j: int| 0 <= j < keys.len() ==> #[trigger] order.contains(j as usize)
    &&& forall|a: int, b: int|
        0 <= a < b < order.len() ==> before(keys, #[trigger] order[a], #[trigger] order[b])
}

/// The stable ascending order of `keys` (there is exactly one).
pub open spec fn sorted_order(keys: Seq<u32>) -> Seq<usize> {
    choose|order: Seq<usize>| is_stable_order(keys, order)
}

proof fn lemma_orders_agree_at(keys: Seq<u32>, o1: Seq<usize>, o2: Seq<usize>, i: int)
    requires
        is_stable_order(keys, o1),
        is_stable_order(keys, o2),
        0 <= i < o1.len(),
    ensures
        o1[i] == o2[i],
    decreases i,
{
    assert forall|j: int| 0 <= j < i implies o1[j] == o2[j] by {
        lemma_orders_agree_at(keys, o1, o2, j);
    }
    if o1[i] != o2[i] {
        let a = o1[i];
        let b = o2[i];
        assert(o2.contains(a as int as usize));
        let k = choose|k: int| 0 <= k < o2.len() && o2[k] == a;
        assert(o1.contains(b as int as usize));
        let m = choose|m: int| 0 <= m < o1.len() && o1[m] == b;
        if k < i {
            assert(o1[k] == a);
            assert(before(keys, o1[k], o1[i]));
        } else {
            assert(before(keys, o2[i], o2[k]));
        }
        if m < i {
            assert(o2[m] == b);
            assert(before(keys, o2[m], o2[i]));
        } else {
            assert(before(keys, o1[i], o1[m]));
        }
    }
}

/// A stable order is unique.
pub proof fn lemma_stable_order_unique(keys: Seq<u32>, o1: Seq<usize>, o2: Seq<usize>)
    requires
        is_stable_order(keys, o1),
        is_stable_order(keys, o2),
    ensures
        o1 == o2,
{
    assert forall|i: int| 0 <= i < o1.len() implies o1[i] == o2[i] by {
        lemma_orders_agree_at(keys, o1, o2, i);
    }
    assert(o1 =~= o2);
}

/// Any stable order is the one `sorted_order` names.
pub proof fn lemma_is_sorted_order(keys: Seq<u32>, order: Seq<usize>)
    requires
        is_stable_order(keys, order),
    ensures
        sorted_order(keys) == order,
        is_stable_order(keys, sorted_order(keys)),
{
    lemma_stable_order_unique(keys, sorted_order(keys), order);
}

/// The slot where `x` goes in `prev`: after every entry that comes before it.
proof fn find_slot(keys: Seq<u32>, prev: Seq<usize>, x: usize, p: nat) -> (q: nat)
    requires
        p <= prev.len(),
        forall|a: int| 0 <= a < p ==> before(keys, #[trigger] prev[a], x),
    ensures
        p <= q <= prev.len(),
        forall|a: int| 0 <= a < q ==> before(keys, #[trigger] prev[a], x),
        q < prev.len() ==> !before(keys, prev[q as int], x),
    decreases prev.len() - p,
{
    if p == prev.len() || !before(keys, prev[p as int], x) {
        p
    } else {
        find_slot(keys, prev, x, p + 1)
    }
}

/// A stable order of the first `i` positions of `keys`, built by insertion.
proof fn build_order(keys: Seq<u32>, i: nat) -> (o: Seq<usize>)
    requires
        i <= keys.len() <= usize::MAX,
    ensures
        o.len() == i,
        forall|a: int| 0 <= a < i ==> #[trigger] o[a] < i,
        forall|j: int| 0 <= j < i ==> #[trigger] o.contains(j as usize),
        forall|a: int, b: int| 0 <= a < b < i ==> before(keys, #[trigger] o[a], #[trigger] o[b]),
    decreases i,
{
    if i == 0 {
        Seq::empty()
    } else {
        let n = (i - 1) as nat;
        let prev = build_order(keys, n);
        let x = n as usize;
        let p = find_slot(keys, prev, x, 0);
        if p < n {
            assert(keys[x as int] < keys[prev[p as int] as int]);
            assert forall|q: int| p <= q < n implies keys[x as int] < keys[#[trigger] prev[q] as int] by {
                if q > p {
                    assert(before(keys, prev[p as int], prev[q]));
                }
            }
        }
        let o = prev.insert(p as int, x);
        assert(o[p as int] == x);
        assert forall|j: int| 0 <= j < i implies #[trigger] o.contains(j as usize) by {
            if j < n {
                assert(prev.contains(j as usize));
                let k = choose|k: int| 0 <= k < prev.len() && prev[k] == j as usize;
                if k < p {
                    assert(o[k] == j as usize);
                } else {
                    assert(o[k + 1] == j as usize);
                }
            } else {
                assert(o[p as int] == j as usize);
            }
        }
        assert forall|a: int, b: int| 0 <= a < b < i implies before(keys, #[trigger] o[a], #[trigger] o[b]) by {
            if b < p {
                assert(o[a] == prev[a] && o[b] == prev[b]);
            } else if b == p {
                assert(o[a] == prev[a]);
            } else if a < p {
                assert(o[a] == prev[a] && o[b] == prev[b - 1]);
            } else if a == p {
                assert(o[b] == prev[b - 1]);
            } else {
                assert(o[a] == prev[a - 1] && o[b] == prev[b - 1]);
            }
        }
        assert forall|a: int| 0 <= a < i implies #[trigger] o[a] < i by {
            if a < p {
                assert(o[a] == prev[a]);
            } else if a > p {
                assert(o[a] == prev[a - 1]);
            }
        }
        o
    }
}

/// A stable order exists for every key sequence that a `Vec` can hold.
pub proof fn lemma_sorted_order_exists(keys: Seq<u32>)
    requires
        keys.len() <= usize::MAX,
    ensures
        is_stable_order(keys, sorted_order(keys)),
{
    let o = build_order(keys, keys.len());
    assert(is_stable_order(keys, o));
}

/// Positions of `keys` sorted ascending by key; equal keys keep their order.
pub fn stable_order(keys: &Vec<u32>) -> (order: Vec<usize>)
    ensures
        order@ == sorted_order(keys@),
        is_stable_order(keys@, order@),
{
    let n = keys.len();
    let mut order: Vec<usize> = Vec::new();
    let mut i: usize = 0;
    while i < n
        invariant
            n == keys@.len(),
            i <= n,
            order@.len() == i,
            forall|a: int| 0 <= a < i ==> #[trigger] order@[a] < i,
            forall|j: int| 0 <= j < i ==> #[trigger] order@.contains(j as usize),
            forall|a: int, b: int|
                0 <= a < b < i ==> before(keys@, #[trigger] order@[a], #[trigger] order@[b]),
        decreases n - i,
    {
        let mut p: usize = 0;
        while p < order.len() && keys[order[p]] <= keys[i]
            invariant
                n == keys@.len(),
                i < n,
                order@.len() == i,
                p <= i,
                forall|a: int| 0 <= a < i ==> #[trigger] order@[a] < i,
                forall|a: int| 0 <= a < p ==> before(keys@, #[trigger] order@[a], i),
            decreases i - p,
        {
            p = p + 1;
        }
        let ghost old_order = order@;
        proof {
            if p < i {
                assert(keys@[i as int] < keys@[old_order[p as int] as int]);
                assert forall|q: int| p <= q < i implies keys@[i as int] < keys@[#[trigger] old_order[q] as int] by {
                    if q > p {
                        assert(before(keys@, old_order[p as int], old_order[q]));
                    }
                }
            }
        }
        order.insert(p, i);
        proof {
            assert(order@[p as int] == i);
            assert forall|j: int| 0 <= j < i + 1 implies #[trigger] order@.contains(j as usize) by {
                if j < i {
                    assert(old_order.contains(j as usize));
                    let k = choose|k: int| 0 <= k < old_order.len() && old_order[k] == j as usize;
                    if k < p {
                        assert(order@[k] == j as usize);
                    } else {
                        assert(order@[k + 1] == j as usize);
                    }
                } else {
                    assert(order@[p as int] == j as usize);
                }
            }
            assert forall|a: int, b: int| 0 <= a < b < i + 1 implies before(keys@, #[trigger] order@[a], #[trigger] order@[b]) by {
                if b < p {
                    assert(order@[a] == old_order[a] && order@[b] == old_order[b]);
                } else if b == p {
                    assert(order@[a] == old_order[a]);
                } else if a < p {
                    assert(order@[a] == old_order[a] && order@[b] == old_order[b - 1]);
                } else if a == p {
                    assert(order@[b] == old_order[b - 1]);
                } else {
                    assert(order@[a] == old_order[a - 1] && order@[b] == old_order[b - 1]);
                }
            }
        }
        i = i + 1;
    }
    proof {
        lemma_is_sorted_order(keys@, order@);
    }
    order
}

} // verus!
