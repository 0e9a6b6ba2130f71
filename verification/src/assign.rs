//! The fingerprint table: filled so that every item is found again.

use crate::layout::Triple;
use crate::peel::{graph_wf, valid_order, zeros_u32, Pick};
use vstd::prelude::*;

verus! {

/// The entries of `table` at the two slots of `t` other than `slot`, combined.
pub open spec fn others(t: Triple, slot: u32, table: Seq<u32>) -> u32 {
    if slot == t.a {
        table[t.b as int] ^ table[t.c as int]
    } else if slot == t.b {
        table[t.a as int] ^ table[t.c as int]
    } else {
        table[t.a as int] ^ table[t.b as int]
    }
}

/// The three entries of `table` at the slots of `t` combine to `print`.
pub open spec fn agrees(t: Triple, print: u32, table: Seq<u32>) -> bool {
    print == table[t.a as int] ^ table[t.b as int] ^ table[t.c as int]
}

/// The table for the picks of `order`: all zero at first; then, from the last
/// pick back to the first, the slot of each pick is set to what makes its item
/// agree with the table.
pub open spec fn assign(g: Seq<Triple>, prints: Seq<u32>, order: Seq<Pick>, slots: nat) -> Seq<u32>
    decreases order.len(),
{
    if order.len() == 0 {
        Seq::new(slots, |i: int| 0u32)
    } else {
        let later = assign(g, prints, order.drop_first(), slots);
        let pick = order[0];
        later.update(
            pick.slot as int,
            prints[pick.item as int] ^ others(g[pick.item as int], pick.slot, later),
        )
    }
}

/// Combining a value with two others and then with each of them again gives
/// the value back, wherever it stands among them.
pub proof fn lemma_xor_cancel(p: u32, x: u32, y: u32)
    ensures
        p == ((p ^ (x ^ y)) ^ x) ^ y,
        p == (x ^ (p ^ (x ^ y))) ^ y,
        p == (x ^ y) ^ (p ^ (x ^ y)),
{
    assert(p == ((p ^ (x ^ y)) ^ x) ^ y) by (bit_vector);
    assert(p == (x ^ (p ^ (x ^ y))) ^ y) by (bit_vector);
    assert(p == (x ^ y) ^ (p ^ (x ^ y))) by (bit_vector);
}

/// With a valid order, every picked item agrees with the table.
pub proof fn lemma_assign(g: Seq<Triple>, prints: Seq<u32>, order: Seq<Pick>, slots: nat)
    requires
        graph_wf(g, slots as int),
        prints.len() == g.len(),
        valid_order(g, order),
    ensures
        assign(g, prints, order, slots).len() == slots,
        forall|k: int|
            0 <= k < order.len() ==> agrees(
                g[(#[trigger] order[k]).item as int],
                prints[order[k].item as int],
                assign(g, prints, order, slots),
            ),
    decreases order.len(),
{
    if order.len() > 0 {
        let rest = order.drop_first();
        assert forall|k: int| 0 <= k < rest.len() implies rest[k] == order[k + 1] by {}
        assert(valid_order(g, rest)) by {
            assert forall|k: int| 0 <= k < rest.len() implies (#[trigger] rest[k]).item < g.len()
                && g[rest[k].item as int].touches(rest[k].slot as int) by {
                assert(rest[k] == order[k + 1]);
            }
            assert forall|k: int, j: int| 0 <= k < j < rest.len() implies !g[(
            #[trigger] rest[j]).item as int].touches((#[trigger] rest[k]).slot as int) by {
                assert(rest[k] == order[k + 1]);
                assert(rest[j] == order[j + 1]);
            }
        }
        lemma_assign(g, prints, rest, slots);
        let later = assign(g, prints, rest, slots);
        let pick = order[0];
        let t = g[pick.item as int];
        let print = prints[pick.item as int];
        let table = assign(g, prints, order, slots);
        assert(t.wf(slots as int));
        assert(t.touches(pick.slot as int));
        assert(table == later.update(pick.slot as int, print ^ others(t, pick.slot, later)));
        lemma_xor_cancel(print, later[t.b as int], later[t.c as int]);
        lemma_xor_cancel(print, later[t.a as int], later[t.c as int]);
        lemma_xor_cancel(print, later[t.a as int], later[t.b as int]);
        assert(agrees(t, print, table));
        assert forall|k: int| 0 <= k < order.len() implies agrees(
            g[(#[trigger] order[k]).item as int],
            prints[order[k].item as int],
            table,
        ) by {
            if k > 0 {
                let u = g[order[k].item as int];
                assert(order[k] == rest[k - 1]);
                assert(agrees(u, prints[order[k].item as int], later));
                assert(!u.touches(order[0].slot as int));
                assert(u.wf(slots as int));
            }
        }
    }
}

/// Computes [`assign`].
pub fn fill(g: &Vec<Triple>, prints: &Vec<u32>, order: &Vec<Pick>, slots: usize) -> (table: Vec<
    u32,
>)
    requires
        graph_wf(g@, slots as int),
        prints.len() == g.len(),
        valid_order(g@, order@),
    ensures
        table@ == assign(g@, prints@, order@, slots as nat),
        table.len() == slots,
{
    let mut table: Vec<u32> = zeros_u32(slots);
    let mut k: usize = order.len();
    proof {
        assert(order@.subrange(k as int, order.len() as int) =~= Seq::<Pick>::empty());
        assert(table@ =~= assign(g@, prints@, Seq::<Pick>::empty(), slots as nat));
    }
    while k > 0
        invariant
            k <= order.len(),
            graph_wf(g@, slots as int),
            prints.len() == g.len(),
            valid_order(g@, order@),
            table.len() == slots,
            table@ == assign(
                g@,
                prints@,
                order@.subrange(k as int, order.len() as int),
                slots as nat,
            ),
        decreases k,
    {
        k -= 1;
        let pick: Pick = order[k];
        proof {
            assert(order@[k as int].item < g.len());
            assert(g@[pick.item as int].wf(slots as int));
            assert(g@[pick.item as int].touches(pick.slot as int));
        }
        let t: Triple = g[pick.item as usize];
        let print: u32 = prints[pick.item as usize];
        let other: u32 = if pick.slot == t.a {
            table[t.b as usize] ^ table[t.c as usize]
        } else if pick.slot == t.b {
            table[t.a as usize] ^ table[t.c as usize]
        } else {
            table[t.a as usize] ^ table[t.b as usize]
        };
        proof {
            let sub = order@.subrange(k as int, order.len() as int);
            assert(sub.drop_first() =~= order@.subrange(k + 1, order.len() as int));
            assert(sub[0] == order@[k as int]);
        }
        table.set(pick.slot as usize, print ^ other);
    }
    proof {
        assert(order@.subrange(0, order.len() as int) =~= order@);
    }
    table
}

} // verus!
