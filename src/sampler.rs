use rand::Rng;
use vstd::prelude::*;
use crate::inventory::{copy_strings, VocabWord, is_rated, rated_positions, rated_strengths, lemma_rated_positions_valid};
use crate::order::{before, sorted_order, stable_order, is_stable_order, lemma_sorted_order_exists};

verus! {

/// Why no selection could be drawn.
#[derive(Debug, PartialEq, Eq, Structural)]
pub enum SampleError {
    /// No entry of the inventory can be sampled.
    EmptyPool,
}

/// One selected word: its surface form and its translations.
pub type Pick = (String, Vec<String>);

/// Size of the weak pool among `n` rated entries: the weakest third, or all
/// of them when that third would be empty.
pub open spec fn pool_size(n: nat) -> nat {
    if n < 3 {
        n
    } else {
        n / 3
    }
}

/// Inventory positions of the weak pool, weakest first (ties in inventory order).
pub open spec fn weak_pool_of(inv: Seq<VocabWord>) -> Seq<usize> {
    let pos = rated_positions(inv);
    sorted_order(rated_strengths(inv)).take(pool_size(pos.len()) as int).map_values(
        |o: usize| pos[o as int],
    )
}

/// The translations of an entry; none at all when it has not been augmented.
pub open spec fn translations_of(w: VocabWord) -> Seq<String> {
    match w.translation {
        Some(t) => t@,
        None => Seq::empty(),
    }
}

/// `p` is the selection pair of entry `w`.
pub open spec fn is_pick_of(p: Pick, w: VocabWord) -> bool {
    &&& w.word_string == Some(p.0)
    &&& p.1@ == translations_of(w)
}

/// `p` is the pair of some entry of the weak pool of `inv`.
pub open spec fn is_drawn_from_pool(p: Pick, inv: Seq<VocabWord>) -> bool {
    exists|k: int|
        0 <= k < weak_pool_of(inv).len() && #[trigger] is_pick_of(p, inv[weak_pool_of(inv)[k] as int])
}

/// `p` is the pair of some rated entry of `inv`.
pub open spec fn is_drawn_from_rated(p: Pick, inv: Seq<VocabWord>) -> bool {
    exists|q: int| 0 <= q < inv.len() && is_rated(inv[q]) && #[trigger] is_pick_of(p, inv[q])
}

/// Every pair of `sel` comes from the weak pool of `inv`.
pub open spec fn drawn_from_weak_pool(sel: Seq<Pick>, inv: Seq<VocabWord>) -> bool {
    forall|i: int| 0 <= i < sel.len() ==> is_drawn_from_pool(#[trigger] sel[i], inv)
}

/// Every pair of `sel` comes from a rated entry of `inv`.
pub open spec fn drawn_from_rated(sel: Seq<Pick>, inv: Seq<VocabWord>) -> bool {
    forall|i: int| 0 <= i < sel.len() ==> is_drawn_from_rated(#[trigger] sel[i], inv)
}

fn rated_of(w: &VocabWord) -> (r: bool)
    ensures
        r == is_rated(*w),
{
    match (&w.strength, &w.word_string) {
        (Some(_), Some(s)) => !s.as_str().is_empty(),
        _ => false,
    }
}

/// Positions and strengths of the rated entries, in inventory order.
fn rated_entries(inv: &Vec<VocabWord>) -> (r: (Vec<usize>, Vec<u32>))
    ensures
        r.0@ == rated_positions(inv@),
        r.1@ == rated_strengths(inv@),
{
    let mut positions: Vec<usize> = Vec::new();
    let mut keys: Vec<u32> = Vec::new();
    let mut i: usize = 0;
    while i < inv.len()
        invariant
            i <= inv@.len(),
            positions@ == rated_positions(inv@.take(i as int)),
            keys@.len() == positions@.len(),
            forall|k: int| 0 <= k < keys@.len() ==> #[trigger] keys@[k] == inv@[positions@[k] as int].strength->0,
            forall|k: int| 0 <= k < positions@.len() ==> #[trigger] positions@[k] < i,
        decreases inv@.len() - i,
    {
        let ghost pre = inv@.take(i as int);
        let ghost next = inv@.take(i + 1);
        assert(next.drop_last() =~= pre);
        assert(next.last() == inv@[i as int]);
        if rated_of(&inv[i]) {
            match inv[i].strength {
                Some(s) => {
                    positions.push(i);
                    keys.push(s);
                },
                None => {},
            }
        }
        i = i + 1;
    }
    assert(inv@.take(inv@.len() as int) =~= inv@);
    proof {
        lemma_rated_positions_valid(inv@);
    }
    assert(keys@ =~= rated_strengths(inv@));
    (positions, keys)
}

/// Inventory positions of the weak pool: the rated entries sorted stably by
/// ascending strength, cut to the weakest third (all of them when fewer than
/// three are rated).
pub fn weak_pool(inventory: &Vec<VocabWord>) -> (pool: Vec<usize>)
    ensures
        pool@ == weak_pool_of(inventory@),
{
    let (positions, keys) = rated_entries(inventory);
    let order = stable_order(&keys);
    let n = positions.len();
    let size = if n < 3 { n } else { n / 3 };
    let mut pool: Vec<usize> = Vec::new();
    let mut k: usize = 0;
    while k < size
        invariant
            size <= n,
            n == positions@.len(),
            is_stable_order(keys@, order@),
            keys@.len() == n,
            k <= size,
            pool@ =~= order@.take(k as int).map_values(|o: usize| positions@[o as int]),
        decreases size - k,
    {
        pool.push(positions[order[k]]);
        k = k + 1;
        assert(pool@ =~= order@.take(k as int).map_values(|o: usize| positions@[o as int]));
    }
    pool
}

/// Every weak-pool position names a rated entry of the inventory; the pool is
/// empty only when no entry is rated.
pub proof fn lemma_weak_pool_rated(inv: Seq<VocabWord>)
    requires
        inv.len() <= usize::MAX,
    ensures
        forall|k: int|
            0 <= k < weak_pool_of(inv).len() ==> {
                &&& #[trigger] weak_pool_of(inv)[k] < inv.len()
                &&& is_rated(inv[weak_pool_of(inv)[k] as int])
            },
        (weak_pool_of(inv).len() == 0) == (rated_positions(inv).len() == 0),
{
    lemma_rated_positions_valid(inv);
    let pos = rated_positions(inv);
    let keys = rated_strengths(inv);
    let order = stable_order_exists(keys);
    assert(weak_pool_of(inv).len() == pool_size(pos.len()));
    assert forall|k: int| 0 <= k < weak_pool_of(inv).len() implies {
        &&& #[trigger] weak_pool_of(inv)[k] < inv.len()
        &&& is_rated(inv[weak_pool_of(inv)[k] as int])
    } by {
        let o = order[k];
        assert(o < keys.len());
        assert(keys.len() == pos.len());
        assert(weak_pool_of(inv)[k] == pos[o as int]);
        assert(is_rated(inv[pos[o as int] as int]));
    }
}

/// A stable order of any key sequence exists.
proof fn stable_order_exists(keys: Seq<u32>) -> (order: Seq<usize>)
    requires
        keys.len() <= usize::MAX,
    ensures
        is_stable_order(keys, order),
        order == sorted_order(keys),
{
    lemma_sorted_order_exists(keys);
    sorted_order(keys)
}

/// The selection pair of a rated entry.
fn pick_of(w: &VocabWord) -> (p: Pick)
    requires
        is_rated(*w),
    ensures
        is_pick_of(p, *w),
{
    let word = match &w.word_string {
        Some(s) => s.clone(),
        None => String::new(),
    };
    let translation = match &w.translation {
        Some(t) => copy_strings(t),
        None => Vec::new(),
    };
    (word, translation)
}

/// The selection for given draws: the `i`-th pair comes from the pool entry
/// that `draws[i]` indexes.
pub fn picks_from(inventory: &Vec<VocabWord>, pool: &Vec<usize>, draws: &Vec<usize>) -> (r: Vec<Pick>)
    requires
        forall|k: int| 0 <= k < pool@.len() ==> #[trigger] pool@[k] < inventory@.len() && is_rated(inventory@[pool@[k] as int]),
        forall|i: int| 0 <= i < draws@.len() ==> #[trigger] draws@[i] < pool@.len(),
    ensures
        r@.len() == draws@.len(),
        forall|i: int| 0 <= i < draws@.len() ==> is_pick_of(#[trigger] r@[i], inventory@[pool@[draws@[i] as int] as int]),
{
    let mut r: Vec<Pick> = Vec::new();
    let mut i: usize = 0;
    while i < draws.len()
        invariant
            i <= draws@.len(),
            r@.len() == i,
            forall|k: int| 0 <= k < pool@.len() ==> #[trigger] pool@[k] < inventory@.len() && is_rated(inventory@[pool@[k] as int]),
            forall|j: int| 0 <= j < draws@.len() ==> #[trigger] draws@[j] < pool@.len(),
            forall|j: int| 0 <= j < i ==> is_pick_of(#[trigger] r@[j], inventory@[pool@[draws@[j] as int] as int]),
        decreases draws@.len() - i,
    {
        let d = draws[i];
        let q = pool[d];
        r.push(pick_of(&inventory[q]));
        i = i + 1;
    }
    r
}

/// Relies on rand's `thread_rng().gen_range(0..bound)`: a value below the
/// bound, drawn uniformly (it panics on an empty range).
#[verifier::external_body]
fn random_below(bound: usize) -> (r: usize)
    requires
        bound > 0,
    ensures
        r < bound,
{
    rand::thread_rng().gen_range(0..bound)
}

/// Draws `count` pairs uniformly, with replacement, from the weak pool.
pub fn sample(inventory: &Vec<VocabWord>, count: usize) -> (r: Result<Vec<Pick>, SampleError>)
    requires
        count > 0,
    ensures
        r is Err <==> weak_pool_of(inventory@).len() == 0,
        r is Err <==> rated_positions(inventory@).len() == 0,
        r is Err ==> r == Err::<Vec<Pick>, SampleError>(SampleError::EmptyPool),
        r matches Ok(sel) ==> {
            &&& sel@.len() == count
            &&& drawn_from_weak_pool(sel@, inventory@)
            &&& drawn_from_rated(sel@, inventory@)
        },
{
    let pool = weak_pool(inventory);
    let _n = inventory.len();
    proof {
        lemma_weak_pool_rated(inventory@);
    }
    if pool.len() == 0 {
        return Err(SampleError::EmptyPool);
    }
    let mut draws: Vec<usize> = Vec::new();
    let mut i: usize = 0;
    while i < count
        invariant
            pool@.len() > 0,
            i <= count,
            draws@.len() == i,
            forall|j: int| 0 <= j < i ==> #[trigger] draws@[j] < pool@.len(),
        decreases count - i,
    {
        draws.push(random_below(pool.len()));
        i = i + 1;
    }
    let sel = picks_from(inventory, &pool, &draws);
    assert forall|i: int| 0 <= i < count implies is_drawn_from_pool(#[trigger] sel@[i], inventory@) by {
        let k = draws@[i] as int;
        assert(weak_pool_of(inventory@)[k] == pool@[k]);
        assert(is_pick_of(sel@[i], inventory@[weak_pool_of(inventory@)[k] as int]));
    }
    assert forall|i: int| 0 <= i < count implies is_drawn_from_rated(#[trigger] sel@[i], inventory@) by {
        let q = pool@[draws@[i] as int] as int;
        assert(is_pick_of(sel@[i], inventory@[q]));
    }
    Ok(sel)
}

proof fn lemma_all_rated_positions(inv: Seq<VocabWord>)
    requires
        inv.len() <= usize::MAX,
        forall|j: int| 0 <= j < inv.len() ==> is_rated(#[trigger] inv[j]),
    ensures
        rated_positions(inv).len() == inv.len(),
        forall|k: int| 0 <= k < inv.len() ==> #[trigger] rated_positions(inv)[k] == k,
    decreases inv.len(),
{
    if inv.len() > 0 {
        let pre = inv.drop_last();
        assert forall|j: int| 0 <= j < pre.len() implies is_rated(#[trigger] pre[j]) by {
            assert(pre[j] == inv[j]);
        }
        lemma_all_rated_positions(pre);
        assert(is_rated(inv.last()));
    }
}

/// With every entry rated and at least three of them, the weak pool holds a
/// third of the entries (rounded down), and no entry in it is stronger than
/// an entry left out of it.
pub proof fn lemma_weak_pool_is_weakest_third(inv: Seq<VocabWord>)
    requires
        3 <= inv.len() <= usize::MAX,
        forall|j: int| 0 <= j < inv.len() ==> is_rated(#[trigger] inv[j]),
    ensures
        weak_pool_of(inv).len() == inv.len() / 3,
        forall|p: int, j: int|
            #![trigger weak_pool_of(inv)[p], inv[j]]
            0 <= p < weak_pool_of(inv).len() && 0 <= j < inv.len() && !weak_pool_of(inv).contains(
                j as usize,
            ) ==> inv[weak_pool_of(inv)[p] as int].strength->0 <= inv[j].strength->0,
{
    lemma_all_rated_positions(inv);
    lemma_rated_positions_valid(inv);
    let pos = rated_positions(inv);
    let keys = rated_strengths(inv);
    let order = stable_order_exists(keys);
    let pool = weak_pool_of(inv);
    let size = inv.len() / 3;
    assert(pool.len() == size);
    assert forall|p: int, j: int|
        #![trigger pool[p], inv[j]]
        0 <= p < pool.len() && 0 <= j < inv.len() && !pool.contains(j as usize) implies inv[pool[p] as int].strength->0 <= inv[j].strength->0 by {
        assert(order.contains(j as usize));
        let m = choose|m: int| 0 <= m < order.len() && order[m] == j as usize;
        assert(pos[j] == j);
        if m < size {
            assert(pool[m] == pos[order[m] as int]);
        }
        assert(before(keys, order[p], order[m]));
        assert(pool[p] == pos[order[p] as int]);
        assert(pos[order[p] as int] == order[p]);
        assert(keys[order[p] as int] == inv[order[p] as int].strength->0);
        assert(keys[j] == inv[j].strength->0);
    }
}

/// With fewer than three rated entries, the weak pool holds every one of them.
pub proof fn lemma_small_weak_pool_is_everything(inv: Seq<VocabWord>)
    requires
        inv.len() <= usize::MAX,
        rated_positions(inv).len() < 3,
    ensures
        weak_pool_of(inv).len() == rated_positions(inv).len(),
        forall|q: usize| #[trigger] weak_pool_of(inv).contains(q) <==> rated_positions(inv).contains(q),
{
    lemma_rated_positions_valid(inv);
    let pos = rated_positions(inv);
    let keys = rated_strengths(inv);
    let order = stable_order_exists(keys);
    let pool = weak_pool_of(inv);
    assert forall|q: usize| #[trigger] pool.contains(q) <==> pos.contains(q) by {
        if pool.contains(q) {
            let k = choose|k: int| 0 <= k < pool.len() && pool[k] == q;
            assert(pos[order[k] as int] == q);
        }
        if pos.contains(q) {
            let j = choose|j: int| 0 <= j < pos.len() && pos[j] == q;
            assert(order.contains(j as usize));
            let m = choose|m: int| 0 <= m < order.len() && order[m] == j as usize;
            assert(pool[m] == q);
        }
    }
}

} // verus!
