//! The manifest: the record that binds a filter's serial number, its content
//! hash and the signatures of the single signers.

use crate::error::Error;
use crate::identity::{views, Identity};
use crate::multisig::{
    aggregate, ascending, composite_key, endorsed, entries_short, entry_block, entry_views,
    key_block, lemma_entry_block_len, lemma_key_block_len, lemma_parse_entry_block,
    lemma_parse_key_block, valid_count,
    write_entries, write_keys, Endorsement, EndorsementView, KeyManifestView, PublicKeyManifest,
};
use crate::signature::{accepts, verify_signature};
use vstd::prelude::*;

verus! {

/// The signature of one signer; empty while the signer has not signed.
#[derive(Clone, Debug, PartialEq, Eq)]
pub struct ManifestSignature {
    pub signer: Identity,
    pub signature: Vec<u8>,
}

/// A manifest signature as plain values.
pub ghost struct ManifestSignatureView {
    pub signer: Seq<u8>,
    pub signature: Seq<u8>,
}

impl View for ManifestSignature {
    type V = ManifestSignatureView;

    open spec fn view(&self) -> ManifestSignatureView {
        ManifestSignatureView { signer: self.signer@, signature: self.signature@ }
    }
}

/// The plain values of a sequence of manifest signatures.
pub open spec fn signature_views(s: Seq<ManifestSignature>) -> Seq<ManifestSignatureView> {
    Seq::new(s.len(), |i: int| s[i]@)
}

/// Whether the signature of one signer verified.
#[derive(Clone, Debug, PartialEq, Eq)]
pub struct ManifestSignatureVerify {
    pub signer: Identity,
    pub verified: bool,
}

/// The record that accompanies a filter.
#[derive(Clone, Debug, PartialEq, Eq)]
pub struct Manifest {
    pub serial: u32,
    pub hash: String,
    pub signatures: Vec<ManifestSignature>,
}

/// The first signature in `sigs` that is not empty and whose signer is `key`.
pub open spec fn first_signature(sigs: Seq<ManifestSignatureView>, key: Seq<u8>) -> Option<Seq<u8>>
    decreases sigs.len(),
{
    if sigs.len() == 0 {
        None
    } else if sigs[0].signer == key && sigs[0].signature.len() > 0 {
        Some(sigs[0].signature)
    } else {
        first_signature(sigs.drop_first(), key)
    }
}

/// The endorsements that a manifest holds for the signers from index `from`
/// on: for each signer, by ascending index, the first signature of that signer
/// that is not empty.
pub open spec fn endorsements(
    sigs: Seq<ManifestSignatureView>,
    keys: Seq<Seq<u8>>,
    from: int,
) -> Seq<EndorsementView>
    decreases keys.len() - from,
{
    if from < 0 || from >= keys.len() {
        Seq::empty()
    } else {
        let rest = endorsements(sigs, keys, from + 1);
        match first_signature(sigs, keys[from]) {
            None => rest,
            Some(signature) => seq![EndorsementView { index: from as u8, signature }] + rest,
        }
    }
}

/// The aggregate signature that a manifest gives for a signer set.
pub open spec fn signed(sigs: Seq<ManifestSignatureView>, km: KeyManifestView) -> Seq<u8> {
    aggregate(km.keys, endorsements(sigs, km.keys, 0))
}

/// Whether a manifest can be turned into an aggregate signature for a signer
/// set: the signer set is well formed, and the length of every signature that
/// goes in fits in one byte.
pub open spec fn signable(sigs: Seq<ManifestSignatureView>, km: KeyManifestView) -> bool {
    km.wf() && entries_short(endorsements(sigs, km.keys, 0))
}

/// The endorsements name signers from `from` on, by ascending index.
pub proof fn lemma_endorsements(sigs: Seq<ManifestSignatureView>, keys: Seq<Seq<u8>>, from: int)
    requires
        0 <= from <= keys.len() <= 255,
    ensures
        ascending(endorsements(sigs, keys, from), keys.len() as int),
        forall|k: int|
            0 <= k < endorsements(sigs, keys, from).len() ==> (#[trigger] endorsements(
                sigs,
                keys,
                from,
            )[k]).index >= from,
    decreases keys.len() - from,
{
    if from < keys.len() {
        lemma_endorsements(sigs, keys, from + 1);
        let rest = endorsements(sigs, keys, from + 1);
        let all = endorsements(sigs, keys, from);
        match first_signature(sigs, keys[from]) {
            None => {},
            Some(signature) => {
                let first = EndorsementView { index: from as u8, signature };
                assert(all == seq![first] + rest);
                assert(all[0] == first);
                assert forall|k: int| 1 <= k < all.len() implies all[k] == rest[k - 1] by {}
                assert forall|k: int| 0 <= k < all.len() implies (#[trigger] all[k]).index
                    < keys.len() && all[k].index >= from by {
                    if k > 0 {
                        assert(all[k] == rest[k - 1]);
                    }
                }
                assert forall|k: int| 0 < k < all.len() implies all[k - 1].index < (
                #[trigger] all[k]).index by {
                    assert(all[k] == rest[k - 1]);
                    if k > 1 {
                        assert(all[k - 1] == rest[k - 2]);
                    }
                }
            },
        }
    }
}

/// There are no more endorsements than signers from `from` on.
pub proof fn lemma_endorsements_len(
    sigs: Seq<ManifestSignatureView>,
    keys: Seq<Seq<u8>>,
    from: int,
)
    requires
        0 <= from <= keys.len(),
    ensures
        endorsements(sigs, keys, from).len() <= keys.len() - from,
    decreases keys.len() - from,
{
    if from < keys.len() {
        lemma_endorsements_len(sigs, keys, from + 1);
    }
}

/// The largest length of an aggregate signature: 255 keys and 255
/// signatures of 255 bytes.
pub const MAX_AGGREGATE_LENGTH: usize = 130815;

/// An aggregate signature is short enough for the length prefix of a filter's
/// signature.
pub proof fn lemma_signed_len(sigs: Seq<ManifestSignatureView>, km: KeyManifestView)
    requires
        signable(sigs, km),
    ensures
        signed(sigs, km).len() <= MAX_AGGREGATE_LENGTH,
{
    lemma_key_block_len(km.keys);
    lemma_entry_block_len(endorsements(sigs, km.keys, 0));
    lemma_endorsements_len(sigs, km.keys, 0);
}

/// The aggregate signature that a manifest gives for a signer set verifies
/// under the composite key of that signer set exactly when as many of the
/// signatures in it as the threshold are signatures of the message by their
/// signers.
pub proof fn lemma_sign_verifies(
    sigs: Seq<ManifestSignatureView>,
    km: KeyManifestView,
    message: Seq<u8>,
)
    requires
        signable(sigs, km),
    ensures
        endorsed(composite_key(km), message, signed(sigs, km)) == (valid_count(
            km.keys,
            message,
            endorsements(sigs, km.keys, 0),
        ) >= km.required),
{
    let es = endorsements(sigs, km.keys, 0);
    let block = key_block(km.keys);
    let composite = composite_key(km);
    let signature = signed(sigs, km);
    lemma_parse_key_block(km.keys, entry_block(es));
    lemma_parse_entry_block(es);
    lemma_endorsements(sigs, km.keys, 0);
    assert(composite[0] == crate::multisig::COMPOSITE_TAG);
    assert(composite[1] == km.required);
    assert(composite[2] == km.keys.len() as u8);
    assert(composite.skip(3) =~= crate::digest::sha256(block));
    assert(signature.subrange(0, block.len() as int) =~= block);
    assert(signature.skip(block.len() as int) =~= entry_block(es));
}

/// The index of the first signature that is not empty and whose signer is
/// `key`.
fn find_signature(sigs: &Vec<ManifestSignature>, key: &Identity) -> (r: Option<usize>)
    ensures
        match r {
            Some(i) => i < sigs.len() && first_signature(signature_views(sigs@), key@) == Some(
                sigs@[i as int].signature@,
            ),
            None => first_signature(signature_views(sigs@), key@).is_none(),
        },
{
    let ghost all = signature_views(sigs@);
    let mut i: usize = 0;
    proof {
        assert(all.skip(0) =~= all);
    }
    while i < sigs.len()
        invariant
            i <= sigs.len(),
            all == signature_views(sigs@),
            first_signature(all, key@) == first_signature(all.skip(i as int), key@),
        decreases sigs.len() - i,
    {
        proof {
            assert(all.skip(i as int)[0] == sigs@[i as int]@);
            assert(all.skip(i as int).drop_first() =~= all.skip(i + 1));
        }
        if sigs[i].signature.len() > 0 && sigs[i].signer.same(key) {
            return Some(i);
        }
        i += 1;
    }
    None
}

impl ManifestSignature {
    /// The entry of a signer who has not signed yet.
    pub fn unsigned(signer: &Identity) -> (r: ManifestSignature)
        ensures
            r.signer@ == signer@,
            r.signature@.len() == 0,
    {
        ManifestSignature { signer: signer.duplicate(), signature: Vec::new() }
    }

    /// Checks the signature against the signer's own key and the signing
    /// bytes.
    pub fn verify(&self, signing_bytes: &[u8]) -> (r: ManifestSignatureVerify)
        ensures
            r.signer@ == self.signer@,
            r.verified == accepts(self.signer@, signing_bytes@, self.signature@),
    {
        ManifestSignatureVerify {
            signer: self.signer.duplicate(),
            verified: verify_signature(
                self.signer.bytes.as_slice(),
                signing_bytes,
                self.signature.as_slice(),
            ),
        }
    }
}

impl Manifest {
    /// The aggregate signature made of the signatures in the manifest.
    ///
    /// For each signer of the signer set, in order, the first signature of
    /// that signer that is not empty goes in; signatures of others are left
    /// out. Fails with `MalformedInput` where the signer set is not well
    /// formed or a signature that would go in is longer than 255 bytes.
    pub fn sign(&self, key_manifest: &PublicKeyManifest) -> (r: Result<Vec<u8>, Error>)
        ensures
            match r {
                Ok(signature) => signable(signature_views(self.signatures@), key_manifest@)
                    && signature@ == signed(signature_views(self.signatures@), key_manifest@)
                    && signature@.len() <= MAX_AGGREGATE_LENGTH,
                Err(e) => e == Error::MalformedInput && !signable(
                    signature_views(self.signatures@),
                    key_manifest@,
                ),
            },
    {
        if !key_manifest.is_wf() {
            return Err(Error::MalformedInput);
        }
        let ghost sigs = signature_views(self.signatures@);
        let ghost keys = views(key_manifest.public_keys@);
        let mut entries: Vec<Endorsement> = Vec::new();
        let mut i: usize = 0;
        proof {
            assert(entry_views(entries@) + endorsements(sigs, keys, 0) =~= endorsements(
                sigs,
                keys,
                0,
            ));
        }
        while i < key_manifest.public_keys.len()
            invariant
                i <= key_manifest.public_keys.len() <= 255,
                sigs == signature_views(self.signatures@),
                keys == views(key_manifest.public_keys@),
                entries_short(entry_views(entries@)),
                entry_views(entries@) + endorsements(sigs, keys, i as int) == endorsements(
                    sigs,
                    keys,
                    0,
                ),
            decreases key_manifest.public_keys.len() - i,
        {
            let ghost before = entry_views(entries@);
            proof {
                assert(keys[i as int] == key_manifest.public_keys@[i as int]@);
            }
            match find_signature(&self.signatures, &key_manifest.public_keys[i]) {
                None => {},
                Some(at) => {
                    let ghost rest = endorsements(sigs, keys, i + 1);
                    let ghost entry = EndorsementView {
                        index: i as u8,
                        signature: self.signatures@[at as int].signature@,
                    };
                    if self.signatures[at].signature.len() > 255 {
                        proof {
                            let all = endorsements(sigs, keys, 0);
                            assert(all == before + (seq![entry] + rest));
                            assert(all[before.len() as int] == entry);
                        }
                        return Err(Error::MalformedInput);
                    }
                    entries.push(
                        Endorsement {
                            index: i as u8,
                            signature: crate::identity::copy_bytes(
                                self.signatures[at].signature.as_slice(),
                            ),
                        },
                    );
                    proof {
                        assert(entry_views(entries@) =~= before.push(entry));
                        assert(entry_views(entries@) + rest =~= before + (seq![entry] + rest));
                    }
                },
            }
            i += 1;
        }
        proof {
            assert(endorsements(sigs, keys, i as int) =~= Seq::<EndorsementView>::empty());
            assert(entry_views(entries@) + Seq::<EndorsementView>::empty() =~= entry_views(
                entries@,
            ));
        }
        let mut out: Vec<u8> = Vec::new();
        write_keys(&mut out, &key_manifest.public_keys);
        write_entries(&mut out, &entries);
        proof {
            assert(out@ =~= signed(sigs, key_manifest@));
            lemma_signed_len(sigs, key_manifest@);
        }
        Ok(out)
    }
}

} // verus!
