//! The filter: construction and membership.

use crate::assign::{agrees, assign, fill, lemma_assign};
use crate::error::Error;
use crate::hash::{attempt_seed, fingerprint, fingerprint_of, mix, mix_hash, seed_of};
use crate::identity::{edge_hash, hash_edge, item_hashes, key_hash, Descriptor, Identity};
use crate::items::{distinct, distinct_hashes, lemma_distinct};
use crate::layout::{layout_for, layout_of, lemma_layout, lemma_triple, Layout, Triple, MAX_ITEMS};
use crate::peel::{
    graph_wf, lemma_peel_order, lemma_peelable, peel, peel_order, peelable, picked, Pick,
};
use vstd::prelude::*;

verus! {

/// The retry ceiling: the number of seeds that a construction tries.
pub const MAX_ATTEMPTS: u32 = 64;

/// A binary fuse filter with 32-bit fingerprints, with the serial number and
/// the signature that make it an artifact.
#[derive(Clone, Debug, PartialEq, Eq)]
pub struct Filter {
    pub serial: u32,
    pub signature: Vec<u8>,
    pub seed: u64,
    pub layout: Layout,
    pub fingerprints: Vec<u32>,
}

/// A filter as plain values.
pub ghost struct FilterView {
    pub serial: u32,
    pub signature: Seq<u8>,
    pub seed: u64,
    pub layout: Layout,
    pub fingerprints: Seq<u32>,
}

impl View for Filter {
    type V = FilterView;

    open spec fn view(&self) -> FilterView {
        FilterView {
            serial: self.serial,
            signature: self.signature@,
            seed: self.seed,
            layout: self.layout,
            fingerprints: self.fingerprints@,
        }
    }
}

impl FilterView {
    /// The fingerprint array has the length that the layout gives, and the
    /// signature's length fits its 32-bit prefix.
    pub open spec fn wf(self) -> bool {
        &&& self.layout.wf()
        &&& self.fingerprints.len() == self.layout.slots()
        &&& self.signature.len() <= u32::MAX
    }

    /// Whether the filter reports the item with hash `item` as present: the
    /// entries at the item's three slots combine to its fingerprint. A filter
    /// without slots reports nothing as present.
    pub open spec fn holds(self, item: u64) -> bool {
        self.layout.segment_count > 0 && {
            let h = mix(item, self.seed);
            agrees(self.layout.triple(h), fingerprint(h), self.fingerprints)
        }
    }
}

/// The slots of all items under a seed.
pub open spec fn graph_of(items: Seq<u64>, seed: u64, l: Layout) -> Seq<Triple> {
    Seq::new(items.len(), |i: int| l.triple(mix(items[i], seed)))
}

/// The fingerprints of all items under a seed.
pub open spec fn prints_of(items: Seq<u64>, seed: u64) -> Seq<u32> {
    Seq::new(items.len(), |i: int| fingerprint(mix(items[i], seed)))
}

/// The picks of construction attempt `attempt`.
pub open spec fn picks_of(items: Seq<u64>, attempt: u32) -> Seq<Pick> {
    let l = layout_of(items.len());
    peel_order(graph_of(items, seed_of(attempt), l), l.slots())
}

/// Whether construction attempt `attempt` retires every item.
pub open spec fn completes(items: Seq<u64>, attempt: u32) -> bool {
    picks_of(items, attempt).len() == items.len()
}

/// The fingerprint table of construction attempt `attempt`.
pub open spec fn table_of(items: Seq<u64>, attempt: u32) -> Seq<u32> {
    let l = layout_of(items.len());
    assign(
        graph_of(items, seed_of(attempt), l),
        prints_of(items, seed_of(attempt)),
        picks_of(items, attempt),
        l.slots() as nat,
    )
}

/// `attempt` is the first attempt that retires every item.
pub open spec fn first_complete(items: Seq<u64>, attempt: u32) -> bool {
    &&& attempt < MAX_ATTEMPTS
    &&& completes(items, attempt)
    &&& forall|b: u32| b < attempt ==> !completes(items, b)
}

/// `f` is the unsigned filter with the given serial number over `items`: empty
/// for no items, else the outcome of the first attempt that retires them all.
pub open spec fn is_build(f: FilterView, serial: u32, items: Seq<u64>) -> bool {
    &&& f.serial == serial
    &&& f.signature.len() == 0
    &&& f.layout == layout_of(items.len())
    &&& if items.len() == 0 {
        f.seed == 0 && f.fingerprints.len() == 0
    } else {
        exists|a: u32| #[trigger]
            first_complete(items, a) && f.seed == seed_of(a) && f.fingerprints == table_of(items, a)
    }
}

/// No filter can be built over `items`: there are too many, or no attempt up to
/// the retry ceiling retires them all.
pub open spec fn cannot_build(items: Seq<u64>) -> bool {
    items.len() > MAX_ITEMS || (items.len() > 0 && forall|a: u32|
        a < MAX_ATTEMPTS ==> !#[trigger] completes(items, a))
}

/// The item set of a descriptor: the hashes of its entries, each once.
pub open spec fn items_of(d: crate::identity::DescriptorView) -> Seq<u64> {
    distinct(item_hashes(d))
}

/// A built filter is well formed.
pub proof fn lemma_build_wf(f: FilterView, serial: u32, items: Seq<u64>)
    requires
        is_build(f, serial, items),
        items.len() <= MAX_ITEMS,
    ensures
        f.wf(),
{
    let n = items.len();
    lemma_layout(n);
    if n > 0 {
        let l = layout_of(n);
        let a = choose|a: u32| #[trigger]
            first_complete(items, a) && f.seed == seed_of(a) && f.fingerprints == table_of(
                items,
                a,
            );
        let seed = seed_of(a);
        let g = graph_of(items, seed, l);
        assert(graph_wf(g, l.slots())) by {
            assert forall|j: int| 0 <= j < g.len() implies (#[trigger] g[j]).wf(l.slots()) by {
                lemma_triple(l, mix(items[j], seed));
            }
        }
        lemma_peel_order(g, l.slots());
        lemma_assign(g, prints_of(items, seed), picks_of(items, a), l.slots() as nat);
    }
}

/// A built filter reports every item it was built over as present.
pub proof fn lemma_no_false_negatives(f: FilterView, serial: u32, items: Seq<u64>, i: int)
    requires
        is_build(f, serial, items),
        items.len() <= MAX_ITEMS,
        0 <= i < items.len(),
    ensures
        f.holds(items[i]),
        f.wf(),
{
    let n = items.len();
    lemma_layout(n);
    let l = layout_of(n);
    let a = choose|a: u32| #[trigger]
        first_complete(items, a) && f.seed == seed_of(a) && f.fingerprints == table_of(items, a);
    let seed = seed_of(a);
    let g = graph_of(items, seed, l);
    let prints = prints_of(items, seed);
    let order = picks_of(items, a);
    assert(graph_wf(g, l.slots())) by {
        assert forall|j: int| 0 <= j < g.len() implies (#[trigger] g[j]).wf(l.slots()) by {
            lemma_triple(l, mix(items[j], seed));
        }
    }
    lemma_peel_order(g, l.slots());
    lemma_assign(g, prints, order, l.slots() as nat);
    assert(picked(order, i));
    let k = choose|k: int| 0 <= k < order.len() && (#[trigger] order[k]).item == i;
    assert(agrees(g[order[k].item as int], prints[order[k].item as int], f.fingerprints));
}

/// An attempt retires every item exactly when, under its seed, there is no
/// set of items, other than the empty one, in which no slot is touched by
/// exactly one item.
pub proof fn lemma_completes(items: Seq<u64>, attempt: u32)
    requires
        items.len() <= MAX_ITEMS,
    ensures
        completes(items, attempt) <==> peelable(
            graph_of(items, seed_of(attempt), layout_of(items.len())),
            layout_of(items.len()).slots(),
        ),
{
    lemma_layout(items.len());
    let l = layout_of(items.len());
    lemma_peelable(graph_of(items, seed_of(attempt), l), l.slots());
}

/// There is one filter for a serial number and an item set.
pub proof fn lemma_build_unique(f: FilterView, g: FilterView, serial: u32, items: Seq<u64>)
    requires
        is_build(f, serial, items),
        is_build(g, serial, items),
    ensures
        f == g,
{
    assert(f.signature =~= g.signature);
    if items.len() == 0 {
        assert(f.fingerprints =~= g.fingerprints);
    } else {
        let a = choose|a: u32| #[trigger]
            first_complete(items, a) && f.seed == seed_of(a) && f.fingerprints == table_of(
                items,
                a,
            );
        let b = choose|b: u32| #[trigger]
            first_complete(items, b) && g.seed == seed_of(b) && g.fingerprints == table_of(
                items,
                b,
            );
        assert(a == b) by {
            if a < b {
                assert(!completes(items, a));
            }
            if b < a {
                assert(!completes(items, b));
            }
        }
    }
}

/// The slots and the fingerprints of all items under a seed.
fn spread(items: &Vec<u64>, seed: u64, layout: &Layout) -> (r: (Vec<Triple>, Vec<u32>))
    requires
        layout.wf(),
        layout.segment_count > 0,
    ensures
        r.0@ == graph_of(items@, seed, *layout),
        r.1@ == prints_of(items@, seed),
        graph_wf(r.0@, layout.slots()),
{
    let mut g: Vec<Triple> = Vec::with_capacity(items.len());
    let mut prints: Vec<u32> = Vec::with_capacity(items.len());
    let mut i: usize = 0;
    while i < items.len()
        invariant
            i <= items.len(),
            g.len() == i,
            prints.len() == i,
            layout.wf(),
            layout.segment_count > 0,
            forall|j: int|
                0 <= j < i ==> (#[trigger] g@[j]) == layout.triple(mix(items@[j], seed))
                    && g@[j].wf(layout.slots()),
            forall|j: int| 0 <= j < i ==> (#[trigger] prints@[j]) == fingerprint(mix(items@[j], seed)),
        decreases items.len() - i,
    {
        let h: u64 = mix_hash(items[i], seed);
        let t: Triple = layout.slots_of(h);
        g.push(t);
        prints.push(fingerprint_of(h));
        i += 1;
    }
    proof {
        assert(g@ =~= graph_of(items@, seed, *layout));
        assert(prints@ =~= prints_of(items@, seed));
    }
    (g, prints)
}

impl Filter {
    /// See [`FilterView::wf`].
    pub open spec fn wf(&self) -> bool {
        self@.wf()
    }

    /// Whether the filter is well formed.
    pub fn is_wf(&self) -> (r: bool)
        ensures
            r == self.wf(),
    {
        if self.signature.len() > u32::MAX as usize {
            return false;
        }
        if !self.layout.is_wf() {
            return false;
        }
        self.fingerprints.len() == self.layout.slot_count() as usize
    }

    /// Builds the unsigned filter over the entries of `descriptor`.
    ///
    /// The entries are hashed and each hash is kept once. Up to `MAX_ATTEMPTS`
    /// seeds are tried in order; the filter is the outcome of the first under
    /// which every item can be retired. It reports every key and every edge of
    /// the descriptor as present. Fails with `ConstructionFailure` where there
    /// are more than `MAX_ITEMS` items or no seed tried retires them all.
    pub fn build(serial: u32, descriptor: &Descriptor) -> (r: Result<Filter, Error>)
        ensures
            match r {
                Ok(f) => {
                    &&& f.wf()
                    &&& !cannot_build(items_of(descriptor@))
                    &&& is_build(f@, serial, items_of(descriptor@))
                    &&& forall|i: int|
                        0 <= i < descriptor@.keys.len() ==> f@.holds(
                            key_hash(#[trigger] descriptor@.keys[i]),
                        )
                    &&& forall|i: int|
                        0 <= i < descriptor@.edges.len() ==> f@.holds(
                            edge_hash(
                                (#[trigger] descriptor@.edges[i]).0,
                                descriptor@.edges[i].1,
                            ),
                        )
                },
                Err(e) => e == Error::ConstructionFailure && cannot_build(items_of(descriptor@)),
            },
    {
        let raw: Vec<u64> = descriptor.hashes();
        let items: Vec<u64> = distinct_hashes(&raw);
        let n: usize = items.len();
        if n > MAX_ITEMS {
            return Err(Error::ConstructionFailure);
        }
        let layout: Layout = layout_for(n);
        if n == 0 {
            let f = Filter {
                serial,
                signature: Vec::new(),
                seed: 0,
                layout,
                fingerprints: Vec::new(),
            };
            proof {
                lemma_distinct(raw@);
                if raw@.len() > 0 {
                    assert(raw@.contains(raw@[0]));
                    assert(items@.contains(raw@[0]));
                }
                assert(descriptor@.keys.len() + descriptor@.edges.len() == raw@.len());
            }
            return Ok(f);
        }
        let slots: usize = ((layout.segment_count as u64 + 2) * (layout.segment_length as u64)) as usize;
        let mut attempt: u32 = 0;
        while attempt < MAX_ATTEMPTS
            invariant
                attempt <= MAX_ATTEMPTS,
                n == items.len(),
                0 < n <= MAX_ITEMS,
                items@ == items_of(descriptor@),
                raw@ == item_hashes(descriptor@),
                layout == layout_of(n as nat),
                layout.wf(),
                layout.segment_count > 0,
                slots == layout.slots(),
                forall|b: u32| b < attempt ==> !completes(items@, b),
            decreases MAX_ATTEMPTS - attempt,
        {
            let seed: u64 = attempt_seed(attempt);
            let (g, prints) = spread(&items, seed, &layout);
            let order: Vec<Pick> = peel(&g, slots);
            if order.len() == n {
                proof {
                    lemma_peel_order(g@, slots as int);
                }
                let table: Vec<u32> = fill(&g, &prints, &order, slots);
                let f = Filter {
                    serial,
                    signature: Vec::new(),
                    seed,
                    layout,
                    fingerprints: table,
                };
                proof {
                    assert(first_complete(items@, attempt));
                    assert(f@.fingerprints == table_of(items@, attempt));
                    assert(is_build(f@, serial, items@));
                    assert forall|i: int| 0 <= i < descriptor@.keys.len() implies f@.holds(
                        key_hash(#[trigger] descriptor@.keys[i]),
                    ) by {
                        crate::laws::law_keys_are_found(f@, serial, descriptor@, i);
                    }
                    assert forall|i: int| 0 <= i < descriptor@.edges.len() implies f@.holds(
                        edge_hash((#[trigger] descriptor@.edges[i]).0, descriptor@.edges[i].1),
                    ) by {
                        crate::laws::law_edges_are_found(f@, serial, descriptor@, i);
                    }
                }
                return Ok(f);
            }
            attempt += 1;
        }
        Err(Error::ConstructionFailure)
    }

    /// Whether the filter reports the item with hash `item` as present.
    pub fn holds(&self, item: u64) -> (r: bool)
        requires
            self.wf(),
        ensures
            r == self@.holds(item),
    {
        if self.layout.segment_count == 0 {
            return false;
        }
        let h: u64 = mix_hash(item, self.seed);
        let t: Triple = self.layout.slots_of(h);
        let print: u32 = fingerprint_of(h);
        print == self.fingerprints[t.a as usize] ^ self.fingerprints[t.b as usize]
            ^ self.fingerprints[t.c as usize]
    }

    /// Whether the filter reports `key` as denied.
    pub fn contains(&self, key: &Identity) -> (r: bool)
        requires
            self.wf(),
        ensures
            r == self@.holds(key_hash(key@)),
    {
        self.holds(key.hash())
    }

    /// Whether the filter reports the edge from `source` to `target` as denied.
    pub fn contains_edge(&self, source: &Identity, target: &Identity) -> (r: bool)
        requires
            self.wf(),
        ensures
            r == self@.holds(edge_hash(source@, target@)),
    {
        self.holds(hash_edge(source, target))
    }
}

} // verus!
