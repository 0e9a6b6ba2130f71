//! Identities, and the descriptor of what is denied.

use crate::hash::{hash_bytes, hash_extend, lemma_hash_concat, HASH_BASIS};
use vstd::prelude::*;

verus! {

/// A public key, held by its canonical byte encoding.
#[derive(Clone, Debug, PartialEq, Eq)]
pub struct Identity {
    pub bytes: Vec<u8>,
}

impl View for Identity {
    type V = Seq<u8>;

    open spec fn view(&self) -> Seq<u8> {
        self.bytes@
    }
}

/// The byte strings of a sequence of identities.
pub open spec fn views(ids: Seq<Identity>) -> Seq<Seq<u8>> {
    Seq::new(ids.len(), |i: int| ids[i]@)
}

/// A directed relationship between two identities.
#[derive(Clone, Debug, PartialEq, Eq)]
pub struct Edge {
    pub source: Identity,
    pub target: Identity,
}

impl View for Edge {
    type V = (Seq<u8>, Seq<u8>);

    open spec fn view(&self) -> (Seq<u8>, Seq<u8>) {
        (self.source@, self.target@)
    }
}

/// The denied keys and the denied edges.
#[derive(Clone, Debug, PartialEq, Eq)]
pub struct Descriptor {
    pub denied_keys: Vec<Identity>,
    pub denied_edges: Vec<Edge>,
}

/// A descriptor as sequences of byte strings.
pub ghost struct DescriptorView {
    pub keys: Seq<Seq<u8>>,
    pub edges: Seq<(Seq<u8>, Seq<u8>)>,
}

impl View for Descriptor {
    type V = DescriptorView;

    open spec fn view(&self) -> DescriptorView {
        DescriptorView {
            keys: Seq::new(self.denied_keys@.len(), |i: int| self.denied_keys@[i]@),
            edges: Seq::new(self.denied_edges@.len(), |i: int| self.denied_edges@[i]@),
        }
    }
}

/// The 64-bit hash that stands for a key.
pub open spec fn key_hash(key: Seq<u8>) -> u64 {
    hash_bytes(key)
}

/// The 64-bit hash that stands for an edge: that of the source's bytes followed
/// by the target's.
pub open spec fn edge_hash(source: Seq<u8>, target: Seq<u8>) -> u64 {
    hash_bytes(source + target)
}

/// The hashes of a descriptor's entries: the keys first, then the edges.
pub open spec fn item_hashes(d: DescriptorView) -> Seq<u64> {
    Seq::new(d.keys.len(), |i: int| key_hash(d.keys[i])) + Seq::new(
        d.edges.len(),
        |i: int| edge_hash(d.edges[i].0, d.edges[i].1),
    )
}

impl Identity {
    /// The identity with the given canonical bytes.
    pub fn new(bytes: Vec<u8>) -> (r: Identity)
        ensures
            r@ == bytes@,
    {
        Identity { bytes }
    }

    /// The hash that stands for this key in a filter.
    pub fn hash(&self) -> (r: u64)
        ensures
            r == key_hash(self@),
    {
        hash_extend(HASH_BASIS, self.bytes.as_slice())
    }

    /// Whether two identities have the same bytes.
    pub fn same(&self, other: &Identity) -> (r: bool)
        ensures
            r == (self@ == other@),
    {
        bytes_eq(self.bytes.as_slice(), other.bytes.as_slice())
    }

    /// A copy of this identity.
    pub fn duplicate(&self) -> (r: Identity)
        ensures
            r@ == self@,
    {
        Identity { bytes: copy_bytes(self.bytes.as_slice()) }
    }
}

impl Edge {
    /// The hash that stands for this edge in a filter.
    pub fn hash(&self) -> (r: u64)
        ensures
            r == edge_hash(self.source@, self.target@),
    {
        hash_edge(&self.source, &self.target)
    }
}

/// The hash that stands for the edge from `source` to `target`.
pub fn hash_edge(source: &Identity, target: &Identity) -> (r: u64)
    ensures
        r == edge_hash(source@, target@),
{
    proof {
        lemma_hash_concat(HASH_BASIS, source@, target@);
    }
    let first: u64 = hash_extend(HASH_BASIS, source.bytes.as_slice());
    hash_extend(first, target.bytes.as_slice())
}

/// Whether two byte strings are equal.
pub fn bytes_eq(a: &[u8], b: &[u8]) -> (r: bool)
    ensures
        r == (a@ == b@),
{
    if a.len() != b.len() {
        return false;
    }
    let mut i: usize = 0;
    while i < a.len()
        invariant
            i <= a.len(),
            a.len() == b.len(),
            forall|j: int| 0 <= j < i ==> a@[j] == b@[j],
        decreases a.len() - i,
    {
        if a[i] != b[i] {
            return false;
        }
        i += 1;
    }
    proof {
        assert(a@ =~= b@);
    }
    true
}

/// A copy of a byte string.
pub fn copy_bytes(a: &[u8]) -> (r: Vec<u8>)
    ensures
        r@ == a@,
{
    let mut out: Vec<u8> = Vec::with_capacity(a.len());
    let mut i: usize = 0;
    while i < a.len()
        invariant
            i <= a.len(),
            out@ == a@.take(i as int),
        decreases a.len() - i,
    {
        out.push(a[i]);
        i += 1;
        proof {
            assert(out@ =~= a@.take(i as int));
        }
    }
    proof {
        assert(a@.take(i as int) =~= a@);
    }
    out
}

impl Descriptor {
    /// The hashes of the entries: the keys first, then the edges.
    pub fn hashes(&self) -> (r: Vec<u64>)
        ensures
            r@ == item_hashes(self@),
    {
        let mut out: Vec<u64> = Vec::new();
        let mut i: usize = 0;
        while i < self.denied_keys.len()
            invariant
                i <= self.denied_keys.len(),
                out@ == Seq::new(i as nat, |j: int| key_hash(self@.keys[j])),
            decreases self.denied_keys.len() - i,
        {
            let h: u64 = self.denied_keys[i].hash();
            out.push(h);
            i += 1;
            proof {
                assert(out@ =~= Seq::new(i as nat, |j: int| key_hash(self@.keys[j])));
            }
        }
        let ghost first = out@;
        let mut k: usize = 0;
        while k < self.denied_edges.len()
            invariant
                k <= self.denied_edges.len(),
                first == Seq::new(self@.keys.len(), |j: int| key_hash(self@.keys[j])),
                out@ == first + Seq::new(
                    k as nat,
                    |j: int| edge_hash(self@.edges[j].0, self@.edges[j].1),
                ),
            decreases self.denied_edges.len() - k,
        {
            let h: u64 = self.denied_edges[k].hash();
            out.push(h);
            k += 1;
            proof {
                assert(out@ =~= first + Seq::new(
                    k as nat,
                    |j: int| edge_hash(self@.edges[j].0, self@.edges[j].1),
                ));
            }
        }
        out
    }
}

} // verus!
