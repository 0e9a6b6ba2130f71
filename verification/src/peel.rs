//! The order in which the items of a filter are retired.
//!
//! Every item touches three slots. An item that is alone on a slot can be
//! retired with that slot; retiring it may leave other items alone on theirs.
//! The order is fixed by always taking the lowest slot that has exactly one
//! item left on it.

use crate::layout::{Triple, MAX_ITEMS};
use vstd::prelude::*;

verus! {

/// A retired item and the slot that it alone was left on.
#[derive(Clone, Copy, Debug, PartialEq, Eq)]
pub struct Pick {
    pub item: u32,
    pub slot: u32,
}

/// Every item has three distinct slots below `slots`.
pub open spec fn graph_wf(g: Seq<Triple>, slots: int) -> bool {
    forall|i: int| 0 <= i < g.len() ==> (#[trigger] g[i]).wf(slots)
}

/// The number of items below `k` that are alive and touch `slot`.
pub open spec fn degree(g: Seq<Triple>, alive: Seq<bool>, slot: int, k: int) -> int
    decreases k,
{
    if k <= 0 {
        0
    } else {
        degree(g, alive, slot, k - 1) + if alive[k - 1] && g[k - 1].touches(slot) {
            1int
        } else {
            0int
        }
    }
}

/// The sum of the indices of the items below `k` that are alive and touch `slot`.
pub open spec fn index_sum(g: Seq<Triple>, alive: Seq<bool>, slot: int, k: int) -> int
    decreases k,
{
    if k <= 0 {
        0
    } else {
        index_sum(g, alive, slot, k - 1) + if alive[k - 1] && g[k - 1].touches(slot) {
            k - 1
        } else {
            0int
        }
    }
}

/// The number of items below `k` that are alive.
pub open spec fn alive_count(alive: Seq<bool>, k: int) -> int
    decreases k,
{
    if k <= 0 {
        0
    } else {
        alive_count(alive, k - 1) + if alive[k - 1] {
            1int
        } else {
            0int
        }
    }
}

/// `n` items, all alive.
pub open spec fn all_alive(n: nat) -> Seq<bool> {
    Seq::new(n, |i: int| true)
}

/// Exactly one alive item touches `slot`.
pub open spec fn is_free(g: Seq<Triple>, alive: Seq<bool>, slot: int) -> bool {
    degree(g, alive, slot, g.len() as int) == 1
}

/// `slot` is the lowest slot that exactly one alive item touches.
pub open spec fn is_lowest_free(g: Seq<Triple>, alive: Seq<bool>, slots: int, slot: int) -> bool {
    &&& 0 <= slot < slots
    &&& is_free(g, alive, slot)
    &&& forall|t: int| 0 <= t < slot ==> !is_free(g, alive, t)
}

/// Item `i` is alive and touches `slot`.
pub open spec fn is_owner(g: Seq<Triple>, alive: Seq<bool>, slot: int, i: int) -> bool {
    0 <= i < g.len() && alive[i] && g[i].touches(slot)
}

/// The picks made from the alive items on, lowest free slot first, until no
/// slot is free. Each pick retires one item, so `fuel` need not exceed the
/// number of items.
pub open spec fn peel_from(g: Seq<Triple>, alive: Seq<bool>, slots: int, fuel: nat) -> Seq<Pick>
    decreases fuel,
{
    if fuel == 0 || !(exists|s: int| is_lowest_free(g, alive, slots, s)) {
        Seq::empty()
    } else {
        let slot = choose|s: int| is_lowest_free(g, alive, slots, s);
        let item = choose|i: int| is_owner(g, alive, slot, i);
        seq![Pick { item: item as u32, slot: slot as u32 }] + peel_from(
            g,
            alive.update(item, false),
            slots,
            (fuel - 1) as nat,
        )
    }
}

/// The picks made from all items of `g`.
pub open spec fn peel_order(g: Seq<Triple>, slots: int) -> Seq<Pick> {
    peel_from(g, all_alive(g.len()), slots, g.len())
}

/// Every pick names an item by one of its slots, and no item touches the slot
/// of an item picked before it.
pub open spec fn valid_order(g: Seq<Triple>, order: Seq<Pick>) -> bool {
    &&& forall|k: int|
        0 <= k < order.len() ==> (#[trigger] order[k]).item < g.len() && g[order[k].item as int].touches(
            order[k].slot as int,
        )
    &&& forall|k: int, j: int|
        0 <= k < j < order.len() ==> !g[(#[trigger] order[j]).item as int].touches(
            (#[trigger] order[k]).slot as int,
        )
}

/// Item `i` is among the picks.
pub open spec fn picked(order: Seq<Pick>, i: int) -> bool {
    exists|k: int| 0 <= k < order.len() && (#[trigger] order[k]).item == i
}

/// No more items touch a slot than there are, and the sum of their indices
/// fits in 64 bits.
pub proof fn lemma_degree_bounds(g: Seq<Triple>, alive: Seq<bool>, slot: int, k: int)
    requires
        0 <= k <= MAX_ITEMS,
    ensures
        0 <= degree(g, alive, slot, k) <= k,
        0 <= index_sum(g, alive, slot, k) <= k * 0x4000_0000,
    decreases k,
{
    if k > 0 {
        lemma_degree_bounds(g, alive, slot, k - 1);
    }
}

/// On a slot of degree zero no item is left; on a slot of degree one the sum
/// of indices is the one item left.
pub proof fn lemma_single(g: Seq<Triple>, alive: Seq<bool>, slot: int, k: int)
    requires
        0 <= k <= g.len() <= MAX_ITEMS,
        alive.len() == g.len(),
    ensures
        degree(g, alive, slot, k) == 0 ==> index_sum(g, alive, slot, k) == 0 && forall|j: int|
            0 <= j < k ==> !(#[trigger] alive[j] && g[j].touches(slot)),
        degree(g, alive, slot, k) == 1 ==> {
            let i = index_sum(g, alive, slot, k);
            &&& 0 <= i < k
            &&& alive[i]
            &&& g[i].touches(slot)
            &&& forall|j: int| 0 <= j < k && #[trigger] alive[j] && g[j].touches(slot) ==> j == i
        },
    decreases k,
{
    if k > 0 {
        lemma_single(g, alive, slot, k - 1);
        lemma_degree_bounds(g, alive, slot, k - 1);
    }
}

/// Retiring an alive item takes it off the slots it touches.
pub proof fn lemma_retire(g: Seq<Triple>, alive: Seq<bool>, i: int, slot: int, k: int)
    requires
        0 <= i < alive.len(),
        alive[i],
        0 <= k <= alive.len(),
        alive.len() == g.len(),
    ensures
        degree(g, alive.update(i, false), slot, k) == degree(g, alive, slot, k) - if i < k
            && g[i].touches(slot) {
            1int
        } else {
            0int
        },
        index_sum(g, alive.update(i, false), slot, k) == index_sum(g, alive, slot, k) - if i < k
            && g[i].touches(slot) {
            i
        } else {
            0int
        },
        alive_count(alive.update(i, false), k) == alive_count(alive, k) - if i < k {
            1int
        } else {
            0int
        },
    decreases k,
{
    if k > 0 {
        lemma_retire(g, alive, i, slot, k - 1);
    }
}

/// Between none and all items are alive; where none is counted, none is.
pub proof fn lemma_alive_count(alive: Seq<bool>, k: int)
    requires
        0 <= k <= alive.len(),
    ensures
        0 <= alive_count(alive, k) <= k,
        alive_count(alive, k) == 0 ==> forall|j: int| 0 <= j < k ==> !#[trigger] alive[j],
    decreases k,
{
    if k > 0 {
        lemma_alive_count(alive, k - 1);
    }
}

/// Of `n` items that are all alive, `k` are among the first `k`.
pub proof fn lemma_all_alive(n: nat, k: int)
    requires
        0 <= k <= n,
    ensures
        alive_count(all_alive(n), k) == k,
    decreases k,
{
    if k > 0 {
        lemma_all_alive(n, k - 1);
    }
}

/// The lowest free slot and its owner are what the definition chooses.
pub proof fn lemma_peel_step(
    g: Seq<Triple>,
    alive: Seq<bool>,
    slots: int,
    fuel: nat,
    slot: int,
    item: int,
)
    requires
        g.len() <= MAX_ITEMS,
        alive.len() == g.len(),
        fuel > 0,
        is_lowest_free(g, alive, slots, slot),
        is_owner(g, alive, slot, item),
    ensures
        peel_from(g, alive, slots, fuel) == seq![Pick { item: item as u32, slot: slot as u32 }]
            + peel_from(g, alive.update(item, false), slots, (fuel - 1) as nat),
{
    let s = choose|s: int| is_lowest_free(g, alive, slots, s);
    assert(is_lowest_free(g, alive, slots, s));
    assert(s == slot) by {
        if s < slot {
            assert(!is_free(g, alive, s));
        }
        if slot < s {
            assert(!is_free(g, alive, slot));
        }
    }
    let i = choose|i: int| is_owner(g, alive, slot, i);
    assert(is_owner(g, alive, slot, i));
    lemma_single(g, alive, slot, g.len() as int);
    assert(i == item);
}

/// What holds of the picks made from any state: they form a valid order of
/// alive items, there are no more of them than alive items, and if there are
/// as many then every alive item is among them.
pub proof fn lemma_peel_from(g: Seq<Triple>, alive: Seq<bool>, slots: int, fuel: nat)
    requires
        g.len() <= MAX_ITEMS,
        alive.len() == g.len(),
        0 <= slots <= u32::MAX,
    ensures
        valid_order(g, peel_from(g, alive, slots, fuel)),
        forall|k: int|
            0 <= k < peel_from(g, alive, slots, fuel).len() ==> alive[(#[trigger] peel_from(
                g,
                alive,
                slots,
                fuel,
            )[k]).item as int] && peel_from(g, alive, slots, fuel)[k].slot < slots,
        peel_from(g, alive, slots, fuel).len() <= alive_count(alive, g.len() as int),
        peel_from(g, alive, slots, fuel).len() <= fuel,
        peel_from(g, alive, slots, fuel).len() == alive_count(alive, g.len() as int) ==> forall|
            i: int,
        |
            0 <= i < g.len() && #[trigger] alive[i] ==> picked(peel_from(g, alive, slots, fuel), i),
    decreases fuel,
{
    let n = g.len() as int;
    let order = peel_from(g, alive, slots, fuel);
    lemma_alive_count(alive, n);
    if fuel == 0 || !(exists|s: int| is_lowest_free(g, alive, slots, s)) {
        assert(order.len() == 0);
    } else {
        let slot = choose|s: int| is_lowest_free(g, alive, slots, s);
        assert(is_lowest_free(g, alive, slots, slot));
        lemma_single(g, alive, slot, n);
        let item = index_sum(g, alive, slot, n);
        assert(is_owner(g, alive, slot, item));
        lemma_peel_step(g, alive, slots, fuel, slot, item);
        let later_alive = alive.update(item, false);
        let later = peel_from(g, later_alive, slots, (fuel - 1) as nat);
        let first = Pick { item: item as u32, slot: slot as u32 };
        assert(order == seq![first] + later);
        lemma_peel_from(g, later_alive, slots, (fuel - 1) as nat);
        lemma_retire(g, alive, item, slot, n);
        assert(order[0] == first);
        assert forall|k: int| 1 <= k < order.len() implies order[k] == later[k - 1] by {}
        assert forall|k: int| 0 <= k < order.len() implies (#[trigger] order[k]).item < g.len()
            && g[order[k].item as int].touches(order[k].slot as int) && alive[order[k].item as int]
            && order[k].slot < slots by {
            if k > 0 {
                assert(order[k] == later[k - 1]);
                assert(later_alive[later[k - 1].item as int]);
            }
        }
        assert forall|k: int, j: int| 0 <= k < j < order.len() implies !g[(
        #[trigger] order[j]).item as int].touches((#[trigger] order[k]).slot as int) by {
            assert(order[j] == later[j - 1]);
            assert(later_alive[later[j - 1].item as int]);
            if k == 0 {
                assert(alive[order[j].item as int]);
                assert(order[j].item as int != item);
            } else {
                assert(order[k] == later[k - 1]);
            }
        }
        if order.len() == alive_count(alive, n) {
            assert(later.len() == alive_count(later_alive, n));
            assert forall|i: int| 0 <= i < g.len() && #[trigger] alive[i] implies picked(
                order,
                i,
            ) by {
                if i == item {
                    assert(order[0].item == i);
                } else {
                    assert(later_alive[i]);
                    assert(picked(later, i));
                    let k = choose|k: int| 0 <= k < later.len() && (#[trigger] later[k]).item == i;
                    assert(order[k + 1] == later[k]);
                    assert(order[k + 1].item == i);
                }
            }
        }
    }
}

/// The picks made from all items form a valid order, and when there are as
/// many picks as items, every item is among them.
pub proof fn lemma_peel_order(g: Seq<Triple>, slots: int)
    requires
        g.len() <= MAX_ITEMS,
        0 <= slots <= u32::MAX,
    ensures
        valid_order(g, peel_order(g, slots)),
        peel_order(g, slots).len() <= g.len(),
        forall|k: int|
            0 <= k < peel_order(g, slots).len() ==> (#[trigger] peel_order(g, slots)[k]).slot
                < slots,
        peel_order(g, slots).len() == g.len() ==> forall|i: int|
            0 <= i < g.len() ==> picked(peel_order(g, slots), i),
{
    let alive = all_alive(g.len());
    lemma_peel_from(g, alive, slots, g.len());
    lemma_all_alive(g.len(), g.len() as int);
    if peel_order(g, slots).len() == g.len() {
        assert forall|i: int| 0 <= i < g.len() implies picked(peel_order(g, slots), i) by {
            assert(alive[i]);
        }
    }
}

/// A set of items is stuck: it is not empty, and no slot is touched by exactly
/// one of its items. No item of a stuck set can ever be retired.
pub open spec fn stuck(g: Seq<Triple>, alive: Seq<bool>, slots: int) -> bool {
    &&& alive.len() == g.len()
    &&& alive_count(alive, g.len() as int) > 0
    &&& forall|s: int| 0 <= s < slots ==> !is_free(g, alive, s)
}

/// No set of items is stuck.
pub open spec fn peelable(g: Seq<Triple>, slots: int) -> bool {
    forall|alive: Seq<bool>| !stuck(g, alive, slots)
}

/// `inner` holds no item that `outer` does not hold.
pub open spec fn within(inner: Seq<bool>, outer: Seq<bool>) -> bool {
    &&& inner.len() == outer.len()
    &&& forall|i: int| 0 <= i < inner.len() ==> (#[trigger] inner[i] ==> outer[i])
}

/// The items left when no more can be picked.
pub open spec fn survivors(g: Seq<Triple>, alive: Seq<bool>, slots: int, fuel: nat) -> Seq<bool>
    decreases fuel,
{
    if fuel == 0 || !(exists|s: int| is_lowest_free(g, alive, slots, s)) {
        alive
    } else {
        let slot = choose|s: int| is_lowest_free(g, alive, slots, s);
        let item = choose|i: int| is_owner(g, alive, slot, i);
        survivors(g, alive.update(item, false), slots, (fuel - 1) as nat)
    }
}

/// A smaller set of items has smaller degrees and a smaller count.
pub proof fn lemma_within(g: Seq<Triple>, inner: Seq<bool>, outer: Seq<bool>, slot: int, k: int)
    requires
        within(inner, outer),
        0 <= k <= inner.len(),
    ensures
        0 <= degree(g, inner, slot, k) <= degree(g, outer, slot, k),
        0 <= alive_count(inner, k) <= alive_count(outer, k),
        forall|i: int|
            0 <= i < k && #[trigger] inner[i] && g[i].touches(slot) ==> degree(g, inner, slot, k)
                >= 1,
    decreases k,
{
    if k > 0 {
        lemma_within(g, inner, outer, slot, k - 1);
        assert(inner[k - 1] ==> outer[k - 1]);
    }
}

/// Where a slot below `bound` is free, there is a lowest free slot.
pub proof fn lemma_lowest_free(g: Seq<Triple>, alive: Seq<bool>, slots: int, bound: int)
    requires
        0 <= bound <= slots,
        exists|s: int| 0 <= s < bound && is_free(g, alive, s),
    ensures
        exists|s: int| is_lowest_free(g, alive, slots, s),
    decreases bound,
{
    let s = choose|s: int| 0 <= s < bound && is_free(g, alive, s);
    if exists|t: int| 0 <= t < s && is_free(g, alive, t) {
        lemma_lowest_free(g, alive, slots, s);
    } else {
        assert(is_lowest_free(g, alive, slots, s));
    }
}

/// With fuel for every alive item, picking ends with one survivor less for
/// every pick, and with no free slot left.
pub proof fn lemma_survivors(g: Seq<Triple>, alive: Seq<bool>, slots: int, fuel: nat)
    requires
        g.len() <= MAX_ITEMS,
        alive.len() == g.len(),
        0 <= slots <= u32::MAX,
        fuel >= alive_count(alive, g.len() as int),
    ensures
        survivors(g, alive, slots, fuel).len() == g.len(),
        alive_count(survivors(g, alive, slots, fuel), g.len() as int) == alive_count(
            alive,
            g.len() as int,
        ) - peel_from(g, alive, slots, fuel).len(),
        forall|s: int| 0 <= s < slots ==> !is_free(g, survivors(g, alive, slots, fuel), s),
    decreases fuel,
{
    let n = g.len() as int;
    lemma_alive_count(alive, n);
    if exists|s: int| is_lowest_free(g, alive, slots, s) {
        let slot = choose|s: int| is_lowest_free(g, alive, slots, s);
        lemma_single(g, alive, slot, n);
        let item = index_sum(g, alive, slot, n);
        assert(is_owner(g, alive, slot, item));
        let chosen = choose|i: int| is_owner(g, alive, slot, i);
        assert(chosen == item);
        lemma_retire(g, alive, item, slot, n);
        lemma_alive_count(alive.update(item, false), n);
        lemma_peel_step(g, alive, slots, fuel, slot, item);
        lemma_survivors(g, alive.update(item, false), slots, (fuel - 1) as nat);
    } else {
        assert forall|s: int| 0 <= s < slots implies !is_free(g, alive, s) by {
            if is_free(g, alive, s) {
                lemma_lowest_free(g, alive, slots, s + 1);
            }
        }
    }
}

/// While a stuck set is among the alive items, not all of them are picked.
pub proof fn lemma_stuck_stays(
    g: Seq<Triple>,
    alive: Seq<bool>,
    inner: Seq<bool>,
    slots: int,
    fuel: nat,
)
    requires
        g.len() <= MAX_ITEMS,
        0 <= slots <= u32::MAX,
        within(inner, alive),
        stuck(g, inner, slots),
    ensures
        peel_from(g, alive, slots, fuel).len() < alive_count(alive, g.len() as int),
    decreases fuel,
{
    let n = g.len() as int;
    lemma_within(g, inner, alive, 0, n);
    if fuel == 0 || !(exists|s: int| is_lowest_free(g, alive, slots, s)) {
    } else {
        let slot = choose|s: int| is_lowest_free(g, alive, slots, s);
        lemma_single(g, alive, slot, n);
        let item = index_sum(g, alive, slot, n);
        assert(is_owner(g, alive, slot, item));
        lemma_peel_step(g, alive, slots, fuel, slot, item);
        lemma_retire(g, alive, item, slot, n);
        lemma_within(g, inner, alive, slot, n);
        assert(!inner[item]) by {
            if inner[item] {
                assert(degree(g, inner, slot, n) >= 1);
                assert(is_free(g, inner, slot));
            }
        }
        let later = alive.update(item, false);
        assert(within(inner, later)) by {
            assert forall|i: int| 0 <= i < inner.len() && #[trigger] inner[i] implies later[i] by {
                assert(alive[i]);
            }
        }
        lemma_stuck_stays(g, later, inner, slots, (fuel - 1) as nat);
    }
}

/// Every item is retired exactly when no set of items is stuck: whether the
/// picks retire all items does not depend on the order in which they are made.
pub proof fn lemma_peelable(g: Seq<Triple>, slots: int)
    requires
        g.len() <= MAX_ITEMS,
        0 <= slots <= u32::MAX,
    ensures
        (peel_order(g, slots).len() == g.len()) <==> peelable(g, slots),
{
    let n = g.len() as int;
    let everyone = all_alive(g.len());
    lemma_all_alive(g.len(), n);
    if peel_order(g, slots).len() == g.len() {
        assert forall|alive: Seq<bool>| !stuck(g, alive, slots) by {
            if stuck(g, alive, slots) {
                assert(within(alive, everyone));
                lemma_stuck_stays(g, everyone, alive, slots, g.len());
            }
        }
    } else {
        lemma_survivors(g, everyone, slots, g.len());
        lemma_peel_from(g, everyone, slots, g.len());
        assert(stuck(g, survivors(g, everyone, slots, g.len()), slots));
    }
}

/// A vector of `n` zeros.
pub fn zeros_u32(n: usize) -> (v: Vec<u32>)
    ensures
        v@ == Seq::new(n as nat, |i: int| 0u32),
{
    let mut v: Vec<u32> = Vec::with_capacity(n);
    let mut i: usize = 0;
    while i < n
        invariant
            i <= n,
            v@ == Seq::new(i as nat, |j: int| 0u32),
        decreases n - i,
    {
        v.push(0u32);
        i += 1;
        assert(v@ =~= Seq::new(i as nat, |j: int| 0u32));
    }
    v
}

/// A vector of `n` zeros.
fn zeros_u64(n: usize) -> (v: Vec<u64>)
    ensures
        v@ == Seq::new(n as nat, |i: int| 0u64),
{
    let mut v: Vec<u64> = Vec::with_capacity(n);
    let mut i: usize = 0;
    while i < n
        invariant
            i <= n,
            v@ == Seq::new(i as nat, |j: int| 0u64),
        decreases n - i,
    {
        v.push(0u64);
        i += 1;
        assert(v@ =~= Seq::new(i as nat, |j: int| 0u64));
    }
    v
}

/// Adds item `i` of `g` to the tallies of one of its slots.
fn tally_slot(count: &mut Vec<u32>, sum: &mut Vec<u64>, slot: u32, i: usize)
    requires
        slot < old(count).len(),
        old(count).len() == old(sum).len(),
        old(count)@[slot as int] <= i,
        old(sum)@[slot as int] <= i * 0x4000_0000,
        i < MAX_ITEMS,
    ensures
        final(count)@ == old(count)@.update(slot as int, (old(count)@[slot as int] + 1) as u32),
        final(sum)@ == old(sum)@.update(slot as int, (old(sum)@[slot as int] + i) as u64),
{
    let s: usize = slot as usize;
    let c: u32 = count[s];
    let t: u64 = sum[s];
    count.set(s, c + 1);
    sum.set(s, t + i as u64);
}

/// Takes item `i` of `g` off the tallies of one of its slots.
fn untally_slot(count: &mut Vec<u32>, sum: &mut Vec<u64>, slot: u32, i: usize)
    requires
        slot < old(count).len(),
        old(count).len() == old(sum).len(),
        old(count)@[slot as int] >= 1,
        old(sum)@[slot as int] >= i,
    ensures
        final(count)@ == old(count)@.update(slot as int, (old(count)@[slot as int] - 1) as u32),
        final(sum)@ == old(sum)@.update(slot as int, (old(sum)@[slot as int] - i) as u64),
{
    let s: usize = slot as usize;
    let c: u32 = count[s];
    let t: u64 = sum[s];
    count.set(s, c - 1);
    sum.set(s, t - i as u64);
}

/// What the tallies hold while the items of `alive` are left.
pub open spec fn tallies(
    g: Seq<Triple>,
    alive: Seq<bool>,
    k: int,
    count: Seq<u32>,
    sum: Seq<u64>,
) -> bool {
    &&& count.len() == sum.len()
    &&& forall|s: int| 0 <= s < count.len() ==> (#[trigger] count[s]) == degree(g, alive, s, k)
    &&& forall|s: int| 0 <= s < sum.len() ==> (#[trigger] sum[s]) == index_sum(g, alive, s, k)
}

/// Each entry is above all that follow it.
pub open spec fn descending(s: Seq<u32>) -> bool {
    forall|a: int, b: int| 0 <= a < b < s.len() ==> s[a] > s[b]
}

/// Puts `slot` among the slots that wait, which are kept descending, unless
/// it is among them.
fn remember(pending: &mut Vec<u32>, slot: u32)
    requires
        descending(old(pending)@),
    ensures
        descending(final(pending)@),
        final(pending)@.contains(slot),
        forall|x: u32| old(pending)@.contains(x) ==> final(pending)@.contains(x),
        forall|k: int|
            0 <= k < final(pending)@.len() ==> (#[trigger] final(pending)@[k]) == slot || old(
                pending,
            )@.contains(final(pending)@[k]),
{
    let ghost before = pending@;
    let mut k: usize = pending.len();
    while k > 0 && pending[k - 1] < slot
        invariant
            k <= pending.len(),
            pending@ == before,
            forall|j: int| k <= j < pending.len() ==> (#[trigger] pending@[j]) < slot,
        decreases k,
    {
        k -= 1;
    }
    if k > 0 && pending[k - 1] == slot {
        proof {
            assert(pending@[k - 1] == slot);
            assert forall|j: int| 0 <= j < pending@.len() implies before.contains(
                #[trigger] pending@[j],
            ) by {
                assert(before[j] == pending@[j]);
            }
        }
        return;
    }
    pending.insert(k, slot);
    proof {
        before.insert_ensures(k as int, slot);
        let after = pending@;
        assert(after[k as int] == slot);
        assert forall|x: u32| before.contains(x) implies after.contains(x) by {
            let j = choose|j: int| 0 <= j < before.len() && before[j] == x;
            if j < k {
                assert(after[j] == x);
            } else {
                assert(after[j + 1] == x);
            }
        }
        assert forall|j: int| 0 <= j < after.len() implies (#[trigger] after[j]) == slot
            || before.contains(after[j]) by {
            if j < k {
                assert(before[j] == after[j]);
            } else if j > k {
                assert(before[j - 1] == after[j]);
            }
        }
        assert forall|a: int, b: int| 0 <= a < b < after.len() implies after[a] > after[b] by {
            let x = if a < k {
                before[a]
            } else if a == k {
                slot
            } else {
                before[a - 1]
            };
            let y = if b < k {
                before[b]
            } else if b == k {
                slot
            } else {
                before[b - 1]
            };
            assert(after[a] == x);
            assert(after[b] == y);
            if a < k && b == k {
                if a < k - 1 {
                    assert(before[a] > before[k - 1]);
                }
            }
        }
    }
}

/// Retires the one item left on `slot`: takes it off the tallies of its three
/// slots.
fn retire(
    g: &Vec<Triple>,
    count: &mut Vec<u32>,
    sum: &mut Vec<u64>,
    slot: usize,
    Ghost(alive): Ghost<Seq<bool>>,
) -> (r: (usize, Triple))
    requires
        g.len() <= MAX_ITEMS,
        alive.len() == g.len(),
        graph_wf(g@, old(count).len() as int),
        tallies(g@, alive, g.len() as int, old(count)@, old(sum)@),
        slot < old(count).len(),
        old(count)@[slot as int] == 1,
    ensures
        r.0 < g.len(),
        r.1 == g@[r.0 as int],
        is_owner(g@, alive, slot as int, r.0 as int),
        final(count).len() == old(count).len(),
        tallies(g@, alive.update(r.0 as int, false), g.len() as int, final(count)@, final(sum)@),
        forall|s: int|
            0 <= s < old(count).len() && !r.1.touches(s) ==> (#[trigger] final(count)@[s]) == old(
                count,
            )@[s],
        final(count)@[slot as int] == 0,
        alive_count(alive.update(r.0 as int, false), g.len() as int) == alive_count(
            alive,
            g.len() as int,
        ) - 1,
{
    let n: usize = g.len();
    proof {
        lemma_single(g@, alive, slot as int, n as int);
        lemma_degree_bounds(g@, alive, slot as int, n as int);
    }
    let i: usize = sum[slot] as usize;
    let t: Triple = g[i];
    let ghost later = alive.update(i as int, false);
    proof {
        assert(g@[i as int].wf(count.len() as int));
        lemma_retire(g@, alive, i as int, t.a as int, n as int);
        lemma_retire(g@, alive, i as int, t.b as int, n as int);
        lemma_retire(g@, alive, i as int, t.c as int, n as int);
        lemma_degree_bounds(g@, later, t.a as int, n as int);
        lemma_degree_bounds(g@, later, t.b as int, n as int);
        lemma_degree_bounds(g@, later, t.c as int, n as int);
    }
    untally_slot(count, sum, t.a, i);
    untally_slot(count, sum, t.b, i);
    untally_slot(count, sum, t.c, i);
    proof {
        assert forall|s: int| 0 <= s < count.len() implies (#[trigger] count@[s]) == degree(
            g@,
            later,
            s,
            n as int,
        ) by {
            lemma_retire(g@, alive, i as int, s, n as int);
        }
        assert forall|s: int| 0 <= s < sum.len() implies (#[trigger] sum@[s]) == index_sum(
            g@,
            later,
            s,
            n as int,
        ) by {
            lemma_retire(g@, alive, i as int, s, n as int);
        }
        lemma_retire(g@, alive, i as int, slot as int, n as int);
    }
    (i, t)
}

/// Retires, in order, every item that is or becomes alone on a slot.
///
/// The slots are scanned upwards. A slot below the scan that is left with one
/// item waits in a list, lowest last, and is taken before the scan goes on.
pub fn peel(g: &Vec<Triple>, slots: usize) -> (order: Vec<Pick>)
    requires
        graph_wf(g@, slots as int),
        g.len() <= MAX_ITEMS,
        slots <= u32::MAX,
    ensures
        order@ == peel_order(g@, slots as int),
{
    let n: usize = g.len();
    let ghost everyone = all_alive(n as nat);
    let mut count: Vec<u32> = zeros_u32(slots);
    let mut sum: Vec<u64> = zeros_u64(slots);
    let mut i: usize = 0;
    while i < n
        invariant
            i <= n,
            n == g.len(),
            n <= MAX_ITEMS,
            graph_wf(g@, slots as int),
            count.len() == slots,
            everyone == all_alive(n as nat),
            tallies(g@, everyone, i as int, count@, sum@),
        decreases n - i,
    {
        let t: Triple = g[i];
        proof {
            assert(g@[i as int].wf(slots as int));
            lemma_degree_bounds(g@, everyone, t.a as int, i as int);
            lemma_degree_bounds(g@, everyone, t.b as int, i as int);
            lemma_degree_bounds(g@, everyone, t.c as int, i as int);
        }
        tally_slot(&mut count, &mut sum, t.a, i);
        tally_slot(&mut count, &mut sum, t.b, i);
        tally_slot(&mut count, &mut sum, t.c, i);
        i += 1;
    }
    let mut order: Vec<Pick> = Vec::new();
    let ghost mut alive = everyone;
    let mut scanned: usize = 0;
    let mut pending: Vec<u32> = Vec::new();
    proof {
        lemma_all_alive(n as nat, n as int);
        assert(order@ + peel_from(g@, alive, slots as int, n as nat) =~= peel_from(
            g@,
            alive,
            slots as int,
            n as nat,
        ));
    }
    while scanned < slots || pending.len() > 0
        invariant
            n == g.len(),
            n <= MAX_ITEMS,
            slots <= u32::MAX,
            graph_wf(g@, slots as int),
            count.len() == slots,
            alive.len() == n,
            scanned <= slots,
            order.len() <= n,
            alive_count(alive, n as int) == n - order.len(),
            tallies(g@, alive, n as int, count@, sum@),
            descending(pending@),
            forall|k: int| 0 <= k < pending.len() ==> (#[trigger] pending@[k]) < scanned,
            forall|s: int|
                0 <= s < scanned && (#[trigger] count@[s]) == 1 ==> pending@.contains(s as u32),
            peel_order(g@, slots as int) == order@ + peel_from(
                g@,
                alive,
                slots as int,
                (n - order.len()) as nat,
            ),
        decreases n - order.len(), pending.len() + (slots - scanned),
    {
        let ghost waiting = pending@;
        let ghost seen = scanned;
        let slot: usize;
        if pending.len() > 0 {
            slot = pending[pending.len() - 1] as usize;
            pending.pop();
            proof {
                assert forall|x: u32| waiting.contains(x) && x != slot implies pending@.contains(
                    x,
                ) by {
                    let k = choose|k: int| 0 <= k < waiting.len() && waiting[k] == x;
                    assert(pending@[k] == x);
                }
            }
        } else {
            slot = scanned;
            scanned += 1;
        }
        if count[slot] == 1 {
            let ghost before = alive;
            let ghost fuel = (n - order.len()) as nat;
            let ghost counted = count@;
            proof {
                assert(is_free(g@, alive, slot as int));
                assert forall|s: int| 0 <= s < slot implies !is_free(g@, alive, s) by {
                    if count@[s] == 1 {
                        assert(waiting.contains(s as u32));
                        let k = choose|k: int| 0 <= k < waiting.len() && waiting[k] == s as u32;
                        if k < waiting.len() - 1 {
                            assert(waiting[k] > waiting[waiting.len() - 1]);
                        }
                    }
                }
                assert(is_lowest_free(g@, alive, slots as int, slot as int));
            }
            let (i, t) = retire(g, &mut count, &mut sum, slot, Ghost(alive));
            let pick = Pick { item: i as u32, slot: slot as u32 };
            proof {
                lemma_alive_count(before.update(i as int, false), n as int);
                lemma_peel_step(g@, before, slots as int, fuel, slot as int, i as int);
                alive = before.update(i as int, false);
                assert(g@[i as int].wf(slots as int));
                assert((order@.push(pick)) + peel_from(
                    g@,
                    alive,
                    slots as int,
                    (fuel - 1) as nat,
                ) =~= order@ + (seq![pick] + peel_from(
                    g@,
                    alive,
                    slots as int,
                    (fuel - 1) as nat,
                )));
            }
            order.push(pick);
            let ghost popped = pending@;
            if count[t.a as usize] == 1 && (t.a as usize) < scanned {
                remember(&mut pending, t.a);
            }
            if count[t.b as usize] == 1 && (t.b as usize) < scanned {
                remember(&mut pending, t.b);
            }
            if count[t.c as usize] == 1 && (t.c as usize) < scanned {
                remember(&mut pending, t.c);
            }
            proof {
                assert forall|s: int| 0 <= s < scanned && (#[trigger] count@[s]) == 1 implies pending@.contains(
                    s as u32,
                ) by {
                    if !t.touches(s) {
                        assert(counted[s] == 1);
                        assert(s != slot);
                        if s < seen {
                            assert(waiting.contains(s as u32));
                        }
                        assert(popped.contains(s as u32));
                    }
                }
            }
        } else {
            proof {
                assert forall|s: int| 0 <= s < scanned && (#[trigger] count@[s]) == 1 implies pending@.contains(
                    s as u32,
                ) by {
                    if s < seen {
                        assert(waiting.contains(s as u32));
                    }
                }
            }
        }
    }
    proof {
        let fuel = (n - order.len()) as nat;
        assert forall|s: int| !is_lowest_free(g@, alive, slots as int, s) by {
            if 0 <= s < slots {
                if count@[s] == 1 {
                    assert(pending@.contains(s as u32));
                }
            }
        }
        assert(peel_from(g@, alive, slots as int, fuel) =~= Seq::<Pick>::empty());
        assert(order@ + Seq::<Pick>::empty() =~= order@);
    }
    order
}

} // verus!
