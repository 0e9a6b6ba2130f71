//! The 64-bit hashes that items of a filter are reduced to.

use vstd::prelude::*;

verus! {

/// Initial state of the byte hash.
pub const HASH_BASIS: u64 = 0xcbf2_9ce4_8422_2325;

/// Multiplier of the byte hash.
pub const HASH_PRIME: u64 = 0x0000_0100_0000_01b3;

/// Step between the seeds of successive construction attempts.
pub const SEED_STEP: u64 = 0x9e37_79b9_7f4a_7c15;

/// The hash state after one more byte.
pub open spec fn absorb(state: u64, byte: u8) -> u64 {
    (state ^ (byte as u64)).wrapping_mul(HASH_PRIME)
}

/// The hash state after `bytes`, starting from `state`.
pub open spec fn hash_from(state: u64, bytes: Seq<u8>) -> u64
    decreases bytes.len(),
{
    if bytes.len() == 0 {
        state
    } else {
        absorb(hash_from(state, bytes.drop_last()), bytes.last())
    }
}

/// The 64-bit hash of a byte string.
pub open spec fn hash_bytes(bytes: Seq<u8>) -> u64 {
    hash_from(HASH_BASIS, bytes)
}

/// Hashing a concatenation is hashing the first part and going on with the
/// second.
pub proof fn lemma_hash_concat(state: u64, a: Seq<u8>, b: Seq<u8>)
    ensures
        hash_from(state, a + b) == hash_from(hash_from(state, a), b),
    decreases b.len(),
{
    if b.len() == 0 {
        assert(a + b =~= a);
    } else {
        lemma_hash_concat(state, a, b.drop_last());
        assert((a + b).drop_last() =~= a + b.drop_last());
        assert((a + b).last() == b.last());
    }
}

/// Continues a hash over `bytes`.
pub fn hash_extend(state: u64, bytes: &[u8]) -> (r: u64)
    ensures
        r == hash_from(state, bytes@),
{
    let mut h: u64 = state;
    let mut i: usize = 0;
    while i < bytes.len()
        invariant
            i <= bytes.len(),
            h == hash_from(state, bytes@.take(i as int)),
        decreases bytes.len() - i,
    {
        proof {
            assert(bytes@.take(i + 1).drop_last() =~= bytes@.take(i as int));
        }
        h = (h ^ (bytes[i] as u64)).wrapping_mul(HASH_PRIME);
        i += 1;
    }
    proof {
        assert(bytes@.take(i as int) =~= bytes@);
    }
    h
}

/// The hash of an item under a seed: the seed is added, then the sum goes
/// through two rounds of shifting, combining and multiplying, and a last
/// round of shifting and combining.
pub open spec fn mix(h: u64, seed: u64) -> u64 {
    let a = h.wrapping_add(seed);
    let b = (a ^ (a >> 33u64)).wrapping_mul(0xff51_afd7_ed55_8ccdu64);
    let c = (b ^ (b >> 33u64)).wrapping_mul(0xc4ce_b9fe_1a85_ec53u64);
    c ^ (c >> 33u64)
}

/// Computes [`mix`].
pub fn mix_hash(h: u64, seed: u64) -> (r: u64)
    ensures
        r == mix(h, seed),
{
    let a: u64 = h.wrapping_add(seed);
    let b: u64 = (a ^ (a >> 33u64)).wrapping_mul(0xff51_afd7_ed55_8ccdu64);
    let c: u64 = (b ^ (b >> 33u64)).wrapping_mul(0xc4ce_b9fe_1a85_ec53u64);
    c ^ (c >> 33u64)
}

/// The seed of construction attempt number `attempt`, counted from zero.
pub open spec fn seed_of(attempt: u32) -> u64 {
    ((attempt as u64 + 1) as u64).wrapping_mul(SEED_STEP)
}

/// Computes [`seed_of`].
pub fn attempt_seed(attempt: u32) -> (r: u64)
    ensures
        r == seed_of(attempt),
{
    (attempt as u64 + 1).wrapping_mul(SEED_STEP)
}

/// The 32-bit fingerprint of a hash.
pub open spec fn fingerprint(h: u64) -> u32 {
    (h ^ (h >> 32u64)) as u32
}

/// Computes [`fingerprint`].
pub fn fingerprint_of(h: u64) -> (r: u32)
    ensures
        r == fingerprint(h),
{
    #[verifier::truncate]
    ((h ^ (h >> 32u64)) as u32)
}

} // verus!
