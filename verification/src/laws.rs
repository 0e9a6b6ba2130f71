//! What holds of the library as a whole.

use crate::codec::{
    decode, encode, lemma_decode_encode, lemma_signing_bytes_injective, signing_bytes,
};
use crate::digest::sha256;
use crate::filter::{
    is_build, items_of, lemma_build_unique, lemma_build_wf, lemma_no_false_negatives, FilterView,
};
use crate::identity::{edge_hash, item_hashes, key_hash, DescriptorView};
use crate::items::lemma_distinct;
use crate::layout::MAX_ITEMS;
use crate::manifest::{
    endorsements, lemma_sign_verifies, signable, signed, ManifestSignatureView,
};
use crate::multisig::{
    composite_key, endorsed, entry_block, key_block, lemma_parse_key_block, valid_count,
    KeyManifestView,
};
use vstd::prelude::*;

verus! {

/// No false negatives: the filter built over a descriptor reports every key of
/// the descriptor as present.
pub proof fn law_keys_are_found(f: FilterView, serial: u32, d: DescriptorView, i: int)
    requires
        is_build(f, serial, items_of(d)),
        items_of(d).len() <= MAX_ITEMS,
        0 <= i < d.keys.len(),
    ensures
        f.holds(key_hash(d.keys[i])),
{
    let raw = item_hashes(d);
    let items = items_of(d);
    lemma_distinct(raw);
    assert(raw[i] == key_hash(d.keys[i]));
    assert(raw.contains(raw[i]));
    assert(items.contains(raw[i]));
    let j = choose|j: int| 0 <= j < items.len() && items[j] == raw[i];
    lemma_no_false_negatives(f, serial, items, j);
}

/// No false negatives: the filter built over a descriptor reports every edge
/// of the descriptor as present.
pub proof fn law_edges_are_found(f: FilterView, serial: u32, d: DescriptorView, i: int)
    requires
        is_build(f, serial, items_of(d)),
        items_of(d).len() <= MAX_ITEMS,
        0 <= i < d.edges.len(),
    ensures
        f.holds(edge_hash(d.edges[i].0, d.edges[i].1)),
{
    let raw = item_hashes(d);
    let items = items_of(d);
    lemma_distinct(raw);
    let k = d.keys.len() + i;
    assert(raw[k] == edge_hash(d.edges[i].0, d.edges[i].1));
    assert(raw.contains(raw[k]));
    assert(items.contains(raw[k]));
    let j = choose|j: int| 0 <= j < items.len() && items[j] == raw[k];
    lemma_no_false_negatives(f, serial, items, j);
}

/// Round trip: reading the binary form of a well-formed filter gives the
/// filter back, signature and serial number included.
pub proof fn law_round_trip(f: FilterView)
    requires
        f.wf(),
    ensures
        decode(encode(f)) == Some(f),
{
    lemma_decode_encode(f);
}

/// The signature is no part of the signing bytes: a filter has the same
/// signing bytes with any signature, and its binary form without a signature
/// is its signing bytes.
pub proof fn law_signing_bytes_leave_the_signature_out(f: FilterView, signature: Seq<u8>)
    ensures
        signing_bytes(FilterView { signature, ..f }) == signing_bytes(f),
        encode(FilterView { signature: Seq::empty(), ..f }) == signing_bytes(f),
{
}

/// Two builds for the same serial number and descriptor give the same filter,
/// the same signing bytes and the same content hash.
pub proof fn law_builds_agree(f: FilterView, g: FilterView, serial: u32, d: DescriptorView)
    requires
        is_build(f, serial, items_of(d)),
        is_build(g, serial, items_of(d)),
    ensures
        f == g,
        signing_bytes(f) == signing_bytes(g),
        sha256(signing_bytes(f)) == sha256(signing_bytes(g)),
{
    lemma_build_unique(f, g, serial, items_of(d));
}

/// Tampering shows: well-formed filters that differ in a fingerprint, in the
/// seed, in the layout or in the serial number have different signing bytes.
pub proof fn law_signing_bytes_tell_filters_apart(f: FilterView, g: FilterView)
    requires
        f.wf(),
        g.wf(),
        f.fingerprints != g.fingerprints || f.seed != g.seed || f.layout != g.layout || f.serial
            != g.serial,
    ensures
        signing_bytes(f) != signing_bytes(g),
{
    if signing_bytes(f) == signing_bytes(g) {
        lemma_signing_bytes_injective(f, g);
    }
}

/// Builds for different serial numbers have different signing bytes, whatever
/// the descriptor.
pub proof fn law_serials_tell_builds_apart(
    f: FilterView,
    g: FilterView,
    first: u32,
    second: u32,
    d: DescriptorView,
    e: DescriptorView,
)
    requires
        is_build(f, first, items_of(d)),
        is_build(g, second, items_of(e)),
        items_of(d).len() <= MAX_ITEMS,
        items_of(e).len() <= MAX_ITEMS,
        first != second,
    ensures
        signing_bytes(f) != signing_bytes(g),
{
    lemma_build_wf(f, first, items_of(d));
    lemma_build_wf(g, second, items_of(e));
    law_signing_bytes_tell_filters_apart(f, g);
}

/// The aggregate signature that a manifest gives for a signer set verifies
/// for no bytes of which fewer of its signatures than the threshold are
/// signatures by their signers. That signatures made over other bytes are
/// none of these bytes is left to the signers' keys.
pub proof fn law_signature_over_other_bytes(
    sigs: Seq<ManifestSignatureView>,
    km: KeyManifestView,
    other: Seq<u8>,
)
    requires
        signable(sigs, km),
        valid_count(km.keys, other, endorsements(sigs, km.keys, 0)) < km.required,
    ensures
        !endorsed(composite_key(km), other, signed(sigs, km)),
{
    lemma_sign_verifies(sigs, km, other);
}

/// The aggregate signature that a manifest gives for a signer set verifies
/// for no bytes under the composite key of as many signers whose keys have
/// another digest. That other keys have another digest is left to SHA-256.
pub proof fn law_signature_under_other_signers(
    sigs: Seq<ManifestSignatureView>,
    km: KeyManifestView,
    others: KeyManifestView,
    message: Seq<u8>,
)
    requires
        signable(sigs, km),
        others.keys.len() == km.keys.len(),
        sha256(key_block(others.keys)) != sha256(key_block(km.keys)),
    ensures
        !endorsed(composite_key(others), message, signed(sigs, km)),
{
    let block = key_block(km.keys);
    let signature = signed(sigs, km);
    let composite = composite_key(others);
    lemma_parse_key_block(km.keys, entry_block(endorsements(sigs, km.keys, 0)));
    assert(composite[2] == km.keys.len() as u8);
    assert(composite.skip(3) =~= sha256(key_block(others.keys)));
    assert(signature.subrange(0, block.len() as int) =~= block);
}

/// Tampering is rejected: a well-formed filter that differs in a fingerprint
/// from the one that was signed has other signing bytes, and it does not
/// verify with the signature of the first unless as many of the signatures
/// in it as the threshold are signatures of the new signing bytes too.
pub proof fn law_tampered_filter_is_rejected(
    f: FilterView,
    g: FilterView,
    sigs: Seq<ManifestSignatureView>,
    km: KeyManifestView,
)
    requires
        f.wf(),
        g.wf(),
        f.fingerprints != g.fingerprints,
        signable(sigs, km),
        g.signature == signed(sigs, km),
        valid_count(km.keys, signing_bytes(g), endorsements(sigs, km.keys, 0)) < km.required,
    ensures
        signing_bytes(g) != signing_bytes(f),
        !endorsed(composite_key(km), signing_bytes(g), g.signature),
{
    law_signing_bytes_tell_filters_apart(f, g);
    lemma_sign_verifies(sigs, km, signing_bytes(g));
}

/// A filter stamped with the aggregate signature that a manifest gives for a
/// signer set verifies under the composite key of that signer set exactly when
/// as many signatures in the manifest as the threshold are signatures of the
/// filter's signing bytes by their signers.
pub proof fn law_stamped_filter_verifies(
    f: FilterView,
    sigs: Seq<ManifestSignatureView>,
    km: KeyManifestView,
)
    requires
        signable(sigs, km),
    ensures
        ({
            let stamped = FilterView { signature: signed(sigs, km), ..f };
            endorsed(composite_key(km), signing_bytes(stamped), stamped.signature) == (valid_count(
                km.keys,
                signing_bytes(f),
                endorsements(sigs, km.keys, 0),
            ) >= km.required)
        }),
{
    lemma_sign_verifies(sigs, km, signing_bytes(f));
}

} // verus!
