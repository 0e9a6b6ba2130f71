//! The endorsement of a message by several signers.
//!
//! A set of signers, in the order given, and a threshold stand behind one
//! composite key: a tag, the threshold, the number of signers, and the digest of
//! the signers' keys. An aggregate signature holds the signers' keys, each
//! behind its length, and then the signatures that were collected, each behind
//! the index of its signer and its length, by ascending index. It verifies
//! under a composite key when the keys in it have the digest of the composite
//! key and at least as many of its signatures as the threshold are those of
//! their signers.
//!
//! The order of the signers matters: the same keys in another order have
//! another composite key. An aggregate signature does not name the
//! threshold: it verifies under every composite key of its signers whose
//! threshold its valid signatures reach.

use crate::digest::{sha256, sha256_digest};
use crate::error::Error;
use crate::identity::{bytes_eq, copy_bytes, views, Identity};
use crate::signature::{accepts, verify_signature};
use vstd::prelude::*;
use vstd::slice::slice_subrange;

verus! {

/// The first byte of a composite key.
pub const COMPOSITE_TAG: u8 = 2;

/// The trusted signers and the number of them whose signatures are required.
#[derive(Clone, Debug, PartialEq, Eq)]
pub struct PublicKeyManifest {
    pub public_keys: Vec<Identity>,
    pub required: u8,
}

/// A signer set as plain values.
pub ghost struct KeyManifestView {
    pub keys: Seq<Seq<u8>>,
    pub required: u8,
}

impl View for PublicKeyManifest {
    type V = KeyManifestView;

    open spec fn view(&self) -> KeyManifestView {
        KeyManifestView { keys: views(self.public_keys@), required: self.required }
    }
}

/// One collected signature, with the index of its signer in the signer set.
#[derive(Clone, Debug, PartialEq, Eq)]
pub struct Endorsement {
    pub index: u8,
    pub signature: Vec<u8>,
}

/// An endorsement as plain values.
pub ghost struct EndorsementView {
    pub index: u8,
    pub signature: Seq<u8>,
}

impl View for Endorsement {
    type V = EndorsementView;

    open spec fn view(&self) -> EndorsementView {
        EndorsementView { index: self.index, signature: self.signature@ }
    }
}

/// The plain values of a sequence of endorsements.
pub open spec fn entry_views(es: Seq<Endorsement>) -> Seq<EndorsementView> {
    Seq::new(es.len(), |i: int| es[i]@)
}

/// No key occurs twice.
pub open spec fn keys_distinct(keys: Seq<Seq<u8>>) -> bool {
    forall|i: int, j: int| 0 <= i < j < keys.len() ==> keys[i] != keys[j]
}

/// The length of every key fits in one byte.
pub open spec fn keys_short(keys: Seq<Seq<u8>>) -> bool {
    forall|i: int| 0 <= i < keys.len() ==> (#[trigger] keys[i]).len() <= 255
}

/// The length of every signature fits in one byte.
pub open spec fn entries_short(es: Seq<EndorsementView>) -> bool {
    forall|i: int| 0 <= i < es.len() ==> (#[trigger] es[i]).signature.len() <= 255
}

impl KeyManifestView {
    /// At least one signature is required and no more than there are signers;
    /// there are at most 255 signers, all different, with keys of at most 255
    /// bytes.
    pub open spec fn wf(self) -> bool {
        &&& 1 <= self.required <= self.keys.len() <= 255
        &&& keys_short(self.keys)
        &&& keys_distinct(self.keys)
    }
}

/// The keys, each behind its length.
pub open spec fn key_block(keys: Seq<Seq<u8>>) -> Seq<u8>
    decreases keys.len(),
{
    if keys.len() == 0 {
        Seq::empty()
    } else {
        seq![keys[0].len() as u8] + keys[0] + key_block(keys.drop_first())
    }
}

/// The signatures, each behind the index of its signer and its length.
pub open spec fn entry_block(es: Seq<EndorsementView>) -> Seq<u8>
    decreases es.len(),
{
    if es.len() == 0 {
        Seq::empty()
    } else {
        seq![es[0].index, es[0].signature.len() as u8] + es[0].signature + entry_block(
            es.drop_first(),
        )
    }
}

/// The aggregate signature of a signer set with the given endorsements.
pub open spec fn aggregate(keys: Seq<Seq<u8>>, es: Seq<EndorsementView>) -> Seq<u8> {
    key_block(keys) + entry_block(es)
}

/// The composite key of a signer set.
pub open spec fn composite_key(km: KeyManifestView) -> Seq<u8> {
    seq![COMPOSITE_TAG, km.required, km.keys.len() as u8] + sha256(key_block(km.keys))
}

/// The first `count` keys of `b`, each behind its length, and the number of
/// bytes they take; `None` where `b` ends before them.
pub open spec fn parse_keys(b: Seq<u8>, count: nat) -> Option<(Seq<Seq<u8>>, int)>
    decreases count,
{
    if count == 0 {
        Some((Seq::empty(), 0))
    } else if b.len() < 1 || b.len() < 1 + b[0] {
        None
    } else {
        let used = 1 + b[0] as int;
        match parse_keys(b.skip(used), (count - 1) as nat) {
            None => None,
            Some(rest) => Some((seq![b.subrange(1, used)] + rest.0, used + rest.1)),
        }
    }
}

/// The endorsements that `b` is made of; `None` where `b` ends inside one.
pub open spec fn parse_entries(b: Seq<u8>) -> Option<Seq<EndorsementView>>
    decreases b.len(),
{
    if b.len() == 0 {
        Some(Seq::empty())
    } else if b.len() < 2 || b.len() < 2 + b[1] {
        None
    } else {
        let used = 2 + b[1] as int;
        match parse_entries(b.skip(used)) {
            None => None,
            Some(rest) => Some(
                seq![EndorsementView { index: b[0], signature: b.subrange(2, used) }] + rest,
            ),
        }
    }
}

/// Every index names one of `n` signers, and the indices ascend.
pub open spec fn ascending(es: Seq<EndorsementView>, n: int) -> bool {
    &&& forall|k: int| 0 <= k < es.len() ==> (#[trigger] es[k]).index < n
    &&& forall|k: int| 0 < k < es.len() ==> es[k - 1].index < (#[trigger] es[k]).index
}

/// The number of endorsements that are signatures of `message` by their
/// signers.
pub open spec fn valid_count(keys: Seq<Seq<u8>>, message: Seq<u8>, es: Seq<EndorsementView>) -> nat
    decreases es.len(),
{
    if es.len() == 0 {
        0
    } else {
        let first: nat = if accepts(keys[es[0].index as int], message, es[0].signature) {
            1
        } else {
            0
        };
        first + valid_count(keys, message, es.drop_first())
    }
}

/// Whether `signature` is an aggregate signature of `message` that verifies
/// under the composite key `composite`.
pub open spec fn endorsed(composite: Seq<u8>, message: Seq<u8>, signature: Seq<u8>) -> bool {
    &&& composite.len() >= 3
    &&& composite[0] == COMPOSITE_TAG
    &&& composite[1] >= 1
    &&& match parse_keys(signature, composite[2] as nat) {
        None => false,
        Some(parsed) => {
            &&& sha256(signature.subrange(0, parsed.1)) == composite.skip(3)
            &&& keys_distinct(parsed.0)
            &&& match parse_entries(signature.skip(parsed.1)) {
                None => false,
                Some(es) => ascending(es, parsed.0.len() as int) && valid_count(
                    parsed.0,
                    message,
                    es,
                ) >= composite[1],
            }
        },
    }
}

/// A key block in front of anything parses to its keys.
pub proof fn lemma_parse_key_block(keys: Seq<Seq<u8>>, rest: Seq<u8>)
    requires
        keys_short(keys),
    ensures
        parse_keys(key_block(keys) + rest, keys.len()) == Some(
            (keys, key_block(keys).len() as int),
        ),
    decreases keys.len(),
{
    let b = key_block(keys) + rest;
    if keys.len() == 0 {
        assert(parse_keys(b, 0).unwrap().0 =~= keys);
    } else {
        let tail = keys.drop_first();
        assert(keys_short(tail)) by {
            assert forall|i: int| 0 <= i < tail.len() implies (#[trigger] tail[i]).len() <= 255 by {
                assert(tail[i] == keys[i + 1]);
            }
        }
        lemma_parse_key_block(tail, rest);
        let used = 1 + keys[0].len() as int;
        assert(keys[0].len() <= 255);
        assert(b[0] == keys[0].len() as u8);
        assert(b.subrange(1, used) =~= keys[0]);
        assert(b.skip(used) =~= key_block(tail) + rest);
        assert(seq![keys[0]] + tail =~= keys);
    }
}

/// An entry block parses to its endorsements.
pub proof fn lemma_parse_entry_block(es: Seq<EndorsementView>)
    requires
        entries_short(es),
    ensures
        parse_entries(entry_block(es)) == Some(es),
    decreases es.len(),
{
    let b = entry_block(es);
    if es.len() == 0 {
    } else {
        let tail = es.drop_first();
        assert(entries_short(tail)) by {
            assert forall|i: int| 0 <= i < tail.len() implies (#[trigger] tail[i]).signature.len()
                <= 255 by {
                assert(tail[i] == es[i + 1]);
            }
        }
        lemma_parse_entry_block(tail);
        let used = 2 + es[0].signature.len() as int;
        assert(es[0].signature.len() <= 255);
        assert(b[0] == es[0].index);
        assert(b[1] == es[0].signature.len() as u8);
        assert(b.subrange(2, used) =~= es[0].signature);
        assert(b.skip(used) =~= entry_block(tail));
        assert(seq![es[0]] + tail =~= es);
    }
}

/// A key block takes at most 256 bytes for each key.
pub proof fn lemma_key_block_len(keys: Seq<Seq<u8>>)
    requires
        keys_short(keys),
    ensures
        key_block(keys).len() <= 256 * keys.len(),
    decreases keys.len(),
{
    if keys.len() > 0 {
        let tail = keys.drop_first();
        assert forall|i: int| 0 <= i < tail.len() implies (#[trigger] tail[i]).len() <= 255 by {
            assert(tail[i] == keys[i + 1]);
        }
        lemma_key_block_len(tail);
        assert(keys[0].len() <= 255);
    }
}

/// An entry block takes at most 257 bytes for each endorsement.
pub proof fn lemma_entry_block_len(es: Seq<EndorsementView>)
    requires
        entries_short(es),
    ensures
        entry_block(es).len() <= 257 * es.len(),
    decreases es.len(),
{
    if es.len() > 0 {
        let tail = es.drop_first();
        assert forall|i: int| 0 <= i < tail.len() implies (#[trigger] tail[i]).signature.len()
            <= 255 by {
            assert(tail[i] == es[i + 1]);
        }
        lemma_entry_block_len(tail);
        assert(es[0].signature.len() <= 255);
    }
}

/// Appends the keys, each behind its length.
pub fn write_keys(out: &mut Vec<u8>, keys: &Vec<Identity>)
    requires
        keys_short(views(keys@)),
    ensures
        final(out)@ == old(out)@ + key_block(views(keys@)),
{
    let ghost start = out@;
    let ghost all = views(keys@);
    let mut i: usize = 0;
    proof {
        assert(all.skip(0) =~= all);
    }
    while i < keys.len()
        invariant
            i <= keys.len(),
            all == views(keys@),
            keys_short(all),
            out@ + key_block(all.skip(i as int)) == start + key_block(all),
        decreases keys.len() - i,
    {
        let key: &Identity = &keys[i];
        let ghost before = out@;
        proof {
            assert(all[i as int] == key@);
            assert(all.skip(i as int)[0] == key@);
            assert(all.skip(i as int).drop_first() =~= all.skip(i + 1));
        }
        out.push(key.bytes.len() as u8);
        crate::codec::append(out, key.bytes.as_slice());
        i += 1;
        proof {
            assert(out@ + key_block(all.skip(i as int)) =~= before + key_block(
                all.skip(i - 1),
            ));
        }
    }
    proof {
        assert(key_block(all.skip(i as int)) =~= Seq::<u8>::empty());
        assert(out@ =~= start + key_block(all));
    }
}

/// Appends the signatures, each behind the index of its signer and its length.
pub fn write_entries(out: &mut Vec<u8>, entries: &Vec<Endorsement>)
    requires
        entries_short(entry_views(entries@)),
    ensures
        final(out)@ == old(out)@ + entry_block(entry_views(entries@)),
{
    let ghost start = out@;
    let ghost all = entry_views(entries@);
    let mut i: usize = 0;
    proof {
        assert(all.skip(0) =~= all);
    }
    while i < entries.len()
        invariant
            i <= entries.len(),
            all == entry_views(entries@),
            entries_short(all),
            out@ + entry_block(all.skip(i as int)) == start + entry_block(all),
        decreases entries.len() - i,
    {
        let entry: &Endorsement = &entries[i];
        let ghost before = out@;
        proof {
            assert(all[i as int] == entry@);
            assert(all.skip(i as int)[0] == entry@);
            assert(all.skip(i as int).drop_first() =~= all.skip(i + 1));
        }
        out.push(entry.index);
        out.push(entry.signature.len() as u8);
        crate::codec::append(out, entry.signature.as_slice());
        i += 1;
        proof {
            assert(out@ + entry_block(all.skip(i as int)) =~= before + entry_block(
                all.skip(i - 1),
            ));
        }
    }
    proof {
        assert(entry_block(all.skip(i as int)) =~= Seq::<u8>::empty());
        assert(out@ =~= start + entry_block(all));
    }
}

/// Reads `count` keys, each behind its length, from the front of `b`.
pub fn read_keys(b: &[u8], count: u8) -> (r: Option<(Vec<Identity>, usize)>)
    ensures
        match r {
            Some(found) => parse_keys(b@, count as nat) == Some((views(found.0@), found.1 as int))
                && found.0.len() == count && found.1 <= b.len(),
            None => parse_keys(b@, count as nat).is_none(),
        },
{
    let mut keys: Vec<Identity> = Vec::new();
    let mut pos: usize = 0;
    let mut i: u8 = 0;
    proof {
        assert(b@.skip(0) =~= b@);
        assert(views(keys@) =~= Seq::<Seq<u8>>::empty());
        match parse_keys(b@, count as nat) {
            None => {},
            Some(rest) => {
                assert(views(keys@) + rest.0 =~= rest.0);
            },
        }
    }
    while i < count
        invariant
            i <= count,
            pos <= b.len(),
            keys.len() == i,
            parse_keys(b@, count as nat) == match parse_keys(b@.skip(pos as int), (count - i) as nat) {
                None => None::<(Seq<Seq<u8>>, int)>,
                Some(rest) => Some((views(keys@) + rest.0, pos + rest.1)),
            },
        decreases count - i,
    {
        if pos >= b.len() {
            return None;
        }
        let length: usize = b[pos] as usize;
        if b.len() - pos < 1 + length {
            proof {
                assert(b@.skip(pos as int)[0] == b@[pos as int]);
            }
            return None;
        }
        let key = Identity { bytes: copy_bytes(slice_subrange(b, pos + 1, pos + 1 + length)) };
        let ghost before = views(keys@);
        let ghost tail = b@.skip(pos as int);
        proof {
            assert(tail[0] == b@[pos as int]);
            assert(tail.subrange(1, 1 + length) =~= b@.subrange(pos + 1, pos + 1 + length));
            assert(tail.skip(1 + length) =~= b@.skip(pos + 1 + length));
        }
        keys.push(key);
        pos = pos + 1 + length;
        i += 1;
        proof {
            assert(views(keys@) =~= before.push(key@));
            match parse_keys(b@.skip(pos as int), (count - i) as nat) {
                None => {},
                Some(rest) => {
                    assert(views(keys@) + rest.0 =~= before + (seq![key@] + rest.0));
                },
            }
        }
    }
    proof {
        assert(views(keys@) + Seq::<Seq<u8>>::empty() =~= views(keys@));
    }
    Some((keys, pos))
}

/// Reads the endorsements that `b` is made of.
pub fn read_entries(b: &[u8]) -> (r: Option<Vec<Endorsement>>)
    ensures
        match r {
            Some(found) => parse_entries(b@) == Some(entry_views(found@)),
            None => parse_entries(b@).is_none(),
        },
{
    let mut entries: Vec<Endorsement> = Vec::new();
    let mut pos: usize = 0;
    proof {
        assert(b@.skip(0) =~= b@);
        assert(entry_views(entries@) =~= Seq::<EndorsementView>::empty());
        match parse_entries(b@) {
            None => {},
            Some(rest) => {
                assert(entry_views(entries@) + rest =~= rest);
            },
        }
    }
    while pos < b.len()
        invariant
            pos <= b.len(),
            parse_entries(b@) == match parse_entries(b@.skip(pos as int)) {
                None => None::<Seq<EndorsementView>>,
                Some(rest) => Some(entry_views(entries@) + rest),
            },
        decreases b.len() - pos,
    {
        let ghost tail = b@.skip(pos as int);
        if b.len() - pos < 2 {
            return None;
        }
        let index: u8 = b[pos];
        let length: usize = b[pos + 1] as usize;
        proof {
            assert(tail[0] == b@[pos as int]);
            assert(tail[1] == b@[pos + 1]);
        }
        if b.len() - pos < 2 + length {
            return None;
        }
        let entry = Endorsement {
            index,
            signature: copy_bytes(slice_subrange(b, pos + 2, pos + 2 + length)),
        };
        let ghost before = entry_views(entries@);
        proof {
            assert(tail.subrange(2, 2 + length) =~= b@.subrange(pos + 2, pos + 2 + length));
            assert(tail.skip(2 + length) =~= b@.skip(pos + 2 + length));
        }
        entries.push(entry);
        pos = pos + 2 + length;
        proof {
            assert(entry_views(entries@) =~= before.push(entry@));
            match parse_entries(b@.skip(pos as int)) {
                None => {},
                Some(rest) => {
                    assert(entry_views(entries@) + rest =~= before + (seq![entry@] + rest));
                },
            }
        }
    }
    proof {
        assert(b@.skip(pos as int).len() == 0);
        assert(entry_views(entries@) + Seq::<EndorsementView>::empty() =~= entry_views(entries@));
    }
    Some(entries)
}

/// Whether no key occurs twice.
pub fn all_distinct(keys: &Vec<Identity>) -> (r: bool)
    ensures
        r == keys_distinct(views(keys@)),
{
    let ghost all = views(keys@);
    let mut j: usize = 0;
    while j < keys.len()
        invariant
            j <= keys.len(),
            all == views(keys@),
            forall|a: int, b: int| 0 <= a < b < j ==> all[a] != all[b],
        decreases keys.len() - j,
    {
        let mut i: usize = 0;
        while i < j
            invariant
                i <= j < keys.len(),
                all == views(keys@),
                forall|a: int| 0 <= a < i ==> all[a] != all[j as int],
            decreases j - i,
        {
            if keys[i].same(&keys[j]) {
                proof {
                    assert(all[i as int] == all[j as int]);
                }
                return false;
            }
            i += 1;
        }
        j += 1;
    }
    true
}

/// Whether the length of every key fits in one byte.
pub fn all_short(keys: &Vec<Identity>) -> (r: bool)
    ensures
        r == keys_short(views(keys@)),
{
    let ghost all = views(keys@);
    let mut i: usize = 0;
    while i < keys.len()
        invariant
            i <= keys.len(),
            all == views(keys@),
            forall|a: int| 0 <= a < i ==> (#[trigger] all[a]).len() <= 255,
        decreases keys.len() - i,
    {
        if keys[i].bytes.len() > 255 {
            proof {
                assert(all[i as int].len() > 255);
            }
            return false;
        }
        i += 1;
    }
    true
}

/// Whether every index names one of `n` signers and the indices ascend.
pub fn is_ascending(entries: &Vec<Endorsement>, n: usize) -> (r: bool)
    ensures
        r == ascending(entry_views(entries@), n as int),
{
    let ghost all = entry_views(entries@);
    let mut i: usize = 0;
    while i < entries.len()
        invariant
            i <= entries.len(),
            all == entry_views(entries@),
            forall|k: int| 0 <= k < i ==> (#[trigger] all[k]).index < n,
            forall|k: int| 0 < k < i ==> all[k - 1].index < (#[trigger] all[k]).index,
        decreases entries.len() - i,
    {
        if entries[i].index as usize >= n {
            proof {
                assert(all[i as int].index >= n);
            }
            return false;
        }
        if i > 0 && entries[i - 1].index >= entries[i].index {
            proof {
                assert(all[i - 1].index >= all[i as int].index);
            }
            return false;
        }
        i += 1;
    }
    true
}

/// Counts the endorsements that are signatures of `message` by their signers.
pub fn count_valid(keys: &Vec<Identity>, message: &[u8], entries: &Vec<Endorsement>) -> (r: usize)
    requires
        ascending(entry_views(entries@), keys.len() as int),
    ensures
        r == valid_count(views(keys@), message@, entry_views(entries@)),
{
    let ghost all = entry_views(entries@);
    let ghost ks = views(keys@);
    let mut count: usize = 0;
    let mut i: usize = 0;
    proof {
        assert(all.skip(0) =~= all);
    }
    while i < entries.len()
        invariant
            i <= entries.len(),
            count <= i,
            all == entry_views(entries@),
            ks == views(keys@),
            ascending(all, keys.len() as int),
            count + valid_count(ks, message@, all.skip(i as int)) == valid_count(ks, message@, all),
        decreases entries.len() - i,
    {
        let entry: &Endorsement = &entries[i];
        proof {
            assert(all[i as int] == entry@);
            assert(all.skip(i as int)[0] == entry@);
            assert(all.skip(i as int).drop_first() =~= all.skip(i + 1));
            assert(ks[entry.index as int] == keys@[entry.index as int]@);
        }
        let key: &Identity = &keys[entry.index as usize];
        if verify_signature(key.bytes.as_slice(), message, entry.signature.as_slice()) {
            count += 1;
        }
        i += 1;
    }
    count
}

/// Checks an aggregate signature of `message` under a composite key.
pub fn verify_aggregate(composite: &[u8], message: &[u8], signature: &[u8]) -> (r: bool)
    ensures
        r == endorsed(composite@, message@, signature@),
{
    if composite.len() < 3 {
        return false;
    }
    if composite[0] != COMPOSITE_TAG || composite[1] < 1 {
        return false;
    }
    let required: u8 = composite[1];
    let found = read_keys(signature, composite[2]);
    match found {
        None => false,
        Some(parsed) => {
            let keys: Vec<Identity> = parsed.0;
            let used: usize = parsed.1;
            let digest: Vec<u8> = sha256_digest(slice_subrange(signature, 0, used));
            proof {
                assert(composite@.subrange(3, composite@.len() as int) =~= composite@.skip(3));
                assert(signature@.subrange(used as int, signature@.len() as int) =~= signature@.skip(
                    used as int,
                ));
            }
            if !bytes_eq(digest.as_slice(), slice_subrange(composite, 3, composite.len())) {
                return false;
            }
            if !all_distinct(&keys) {
                return false;
            }
            match read_entries(slice_subrange(signature, used, signature.len())) {
                None => false,
                Some(entries) => {
                    if !is_ascending(&entries, keys.len()) {
                        return false;
                    }
                    let count: usize = count_valid(&keys, message, &entries);
                    count >= required as usize
                },
            }
        },
    }
}

impl crate::filter::Filter {
    /// Checks that the filter's signature is an aggregate signature of its
    /// signing bytes under the composite key `key`.
    ///
    /// Fails with `VerificationFailure` where it is not.
    pub fn verify(&self, key: &Identity) -> (r: Result<(), Error>)
        requires
            self.wf(),
        ensures
            r.is_ok() == endorsed(key@, crate::codec::signing_bytes(self@), self.signature@),
            r.is_err() ==> r == Err::<(), Error>(Error::VerificationFailure),
    {
        let message: Vec<u8> = self.signing_bytes();
        if verify_aggregate(key.bytes.as_slice(), message.as_slice(), self.signature.as_slice()) {
            Ok(())
        } else {
            Err(Error::VerificationFailure)
        }
    }
}

/// The threshold of `n` signers where none is given: all of them, as far as
/// one byte counts.
pub open spec fn implied_threshold(n: nat) -> u8 {
    if n <= 255 {
        n as u8
    } else {
        255
    }
}

impl PublicKeyManifest {
    /// The signer set of the given keys, in their order. Where no threshold
    /// is given, the signatures of all signers are required.
    pub fn with_threshold(public_keys: Vec<Identity>, required: Option<u8>) -> (r:
        PublicKeyManifest)
        ensures
            r.public_keys == public_keys,
            views(r.public_keys@) == views(public_keys@),
            r.required == match required {
                Some(k) => k,
                None => implied_threshold(public_keys@.len()),
            },
    {
        let threshold: u8 = match required {
            Some(k) => k,
            None => if public_keys.len() <= 255 {
                public_keys.len() as u8
            } else {
                255
            },
        };
        PublicKeyManifest { public_keys, required: threshold }
    }

    /// See [`KeyManifestView::wf`].
    pub open spec fn wf(&self) -> bool {
        self@.wf()
    }

    /// Whether the signer set is well formed.
    pub fn is_wf(&self) -> (r: bool)
        ensures
            r == self.wf(),
    {
        let n: usize = self.public_keys.len();
        if self.required < 1 || n > 255 || self.required as usize > n {
            return false;
        }
        all_short(&self.public_keys) && all_distinct(&self.public_keys)
    }

    /// Derives the composite key of the signer set.
    ///
    /// Fails with `MalformedInput` where the signer set is not well formed.
    pub fn derive_composite(&self) -> (r: Result<Identity, Error>)
        ensures
            match r {
                Ok(key) => self.wf() && key@ == composite_key(self@),
                Err(e) => e == Error::MalformedInput && !self.wf(),
            },
    {
        if !self.is_wf() {
            return Err(Error::MalformedInput);
        }
        let mut block: Vec<u8> = Vec::new();
        write_keys(&mut block, &self.public_keys);
        let digest: Vec<u8> = sha256_digest(block.as_slice());
        let mut bytes: Vec<u8> = Vec::new();
        bytes.push(COMPOSITE_TAG);
        bytes.push(self.required);
        bytes.push(self.public_keys.len() as u8);
        crate::codec::append(&mut bytes, digest.as_slice());
        proof {
            assert(block@ =~= key_block(self@.keys));
            assert(bytes@ =~= composite_key(self@));
        }
        Ok(Identity { bytes })
    }
}

} // verus!
