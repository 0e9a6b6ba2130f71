//! The item set of a filter: hashes, each once.

use std::collections::HashSet;
use vstd::prelude::*;

verus! {

broadcast use vstd::std_specs::hash::group_hash_axioms;

/// The values of `s`, each at the place of its first occurrence.
pub open spec fn distinct(s: Seq<u64>) -> Seq<u64>
    decreases s.len(),
{
    if s.len() == 0 {
        s
    } else {
        let d = distinct(s.drop_last());
        if d.contains(s.last()) {
            d
        } else {
            d.push(s.last())
        }
    }
}

/// `distinct` keeps every value, adds none, and repeats none.
pub proof fn lemma_distinct(s: Seq<u64>)
    ensures
        distinct(s).len() <= s.len(),
        forall|x: u64| distinct(s).contains(x) <==> s.contains(x),
        distinct(s).no_duplicates(),
    decreases s.len(),
{
    if s.len() > 0 {
        let front = s.drop_last();
        let d = distinct(front);
        lemma_distinct(front);
        let out = distinct(s);
        let last = s.last();
        assert forall|x: u64| out.contains(x) <==> s.contains(x) by {
            assert(d.contains(x) <==> front.contains(x));
            if front.contains(x) {
                let m = choose|m: int| 0 <= m < front.len() && front[m] == x;
                assert(s[m] == x);
            }
            if x == last {
                assert(s[s.len() - 1] == x);
            }
            if s.contains(x) {
                let k = choose|k: int| 0 <= k < s.len() && s[k] == x;
                if k < s.len() - 1 {
                    assert(front[k] == x);
                }
            }
            assert(s.contains(x) <==> front.contains(x) || x == last);
            if !d.contains(last) {
                assert(out == d.push(last));
                if d.contains(x) {
                    let m = choose|m: int| 0 <= m < d.len() && d[m] == x;
                    assert(out[m] == x);
                }
                if x == last {
                    assert(out[d.len() as int] == x);
                }
                if out.contains(x) {
                    let k = choose|k: int| 0 <= k < out.len() && out[k] == x;
                    if k < d.len() {
                        assert(d[k] == x);
                    }
                }
            }
            assert(out.contains(x) <==> d.contains(x) || x == last);
        }
        if !d.contains(last) {
            assert forall|i: int, j: int| 0 <= i < out.len() && 0 <= j < out.len() && i != j implies out[i]
                != out[j] by {
                if i < d.len() && j < d.len() {
                    assert(d[i] != d[j]);
                } else if i < d.len() {
                    assert(d[i] == out[i]);
                    assert(d.contains(out[i]));
                } else {
                    assert(d[j] == out[j]);
                    assert(d.contains(out[j]));
                }
            }
        }
    }
}

/// Computes [`distinct`].
pub fn distinct_hashes(hashes: &Vec<u64>) -> (out: Vec<u64>)
    ensures
        out@ == distinct(hashes@),
{
    let mut seen: HashSet<u64> = HashSet::new();
    let mut out: Vec<u64> = Vec::new();
    let mut i: usize = 0;
    proof {
        assert(hashes@.take(0) =~= Seq::<u64>::empty());
    }
    while i < hashes.len()
        invariant
            i <= hashes.len(),
            out@ == distinct(hashes@.take(i as int)),
            forall|x: u64| seen@.contains(x) <==> out@.contains(x),
        decreases hashes.len() - i,
    {
        let h: u64 = hashes[i];
        let ghost before = out@;
        proof {
            assert(hashes@.take(i + 1).drop_last() =~= hashes@.take(i as int));
            assert(hashes@.take(i + 1).last() == h);
        }
        if seen.insert(h) {
            out.push(h);
            proof {
                assert forall|x: u64| seen@.contains(x) <==> out@.contains(x) by {
                    if before.contains(x) {
                        let k = choose|k: int| 0 <= k < before.len() && before[k] == x;
                        assert(out@[k] == x);
                    }
                    if x == h {
                        assert(out@[before.len() as int] == x);
                    }
                    if out@.contains(x) {
                        let k = choose|k: int| 0 <= k < out@.len() && out@[k] == x;
                        if k < before.len() {
                            assert(before[k] == x);
                        }
                    }
                }
            }
        }
        i += 1;
    }
    proof {
        assert(hashes@.take(i as int) =~= hashes@);
    }
    out
}

} // verus!
