use denylist::error::Error;
use denylist::filter::Filter;
use denylist::identity::{Descriptor, Edge, Identity};
use denylist::manifest::{Manifest, ManifestSignature};
use denylist::multisig::{
    all_distinct, all_short, count_valid, is_ascending, read_entries, read_keys, verify_aggregate,
    write_entries, write_keys, Endorsement, PublicKeyManifest,
};
use denylist::signature::verify_signature;
use helium_crypto::{KeyTag, KeyType, Keypair, Network, Sign};
use sha2::{Digest, Sha256};

fn keypair(seed: u8, key_type: KeyType) -> Keypair {
    let tag = KeyTag { network: Network::MainNet, key_type };
    (seed..=255).find_map(|s| Keypair::generate_from_entropy(tag, &[s; 32]).ok()).unwrap()
}

fn signer(seed: u8) -> Keypair {
    keypair(seed, KeyType::Ed25519)
}

fn identity(pair: &Keypair) -> Identity {
    Identity::new(pair.public_key().to_vec())
}

fn key(n: u8) -> Identity {
    Identity::new(vec![1, n, n, n])
}

fn signers(seeds: &[u8], required: u8) -> PublicKeyManifest {
    PublicKeyManifest {
        public_keys: seeds.iter().map(|s| identity(&signer(*s))).collect(),
        required,
    }
}

fn manifest(filter: &Filter, signing: &[u8], all: &[u8]) -> Manifest {
    let message = filter.signing_bytes();
    Manifest {
        serial: filter.serial,
        hash: String::new(),
        signatures: all
            .iter()
            .map(|s| {
                let pair = signer(*s);
                let signature = if signing.contains(s) { pair.sign(&message).unwrap() } else { vec![] };
                ManifestSignature { signer: identity(&pair), signature }
            })
            .collect(),
    }
}

fn sample() -> Filter {
    let d = Descriptor {
        denied_keys: vec![key(1)],
        denied_edges: vec![Edge { source: key(2), target: key(3) }],
    };
    Filter::build(7, &d).unwrap()
}

#[test]
fn single_signature_is_checked_by_the_key() {
    for key_type in [KeyType::Ed25519, KeyType::EccCompact] {
        let pair = keypair(11, key_type);
        let other = keypair(pair.secret_to_vec()[0] + 1, key_type);
        assert_ne!(pair.public_key(), other.public_key());
        let signature = pair.sign(b"message").unwrap();
        let bytes = pair.public_key().to_vec();
        assert!(verify_signature(&bytes, b"message", &signature));
        assert!(!verify_signature(&bytes, b"massage", &signature));
        assert!(!verify_signature(&other.public_key().to_vec(), b"message", &signature));
        assert!(!verify_signature(&bytes, b"message", &signature[1..]));
        assert!(!verify_signature(&bytes, b"message", &[]));
    }
}

#[test]
fn what_is_no_key_verifies_nothing() {
    let pair = signer(11);
    let signature = pair.sign(b"message").unwrap();
    assert!(!verify_signature(&[], b"message", &signature));
    assert!(!verify_signature(&[1], b"message", &signature));
    assert!(!verify_signature(&[0x21; 33], b"message", &signature));
    assert!(!verify_signature(&[9; 33], b"message", &signature));
}

#[test]
fn secp256k1_signatures_are_checked_by_the_key() {
    let pair = keypair(11, KeyType::Secp256k1);
    let other = keypair(pair.secret_to_vec()[0] + 1, KeyType::Secp256k1);
    let signature = pair.sign(b"message").unwrap();
    let bytes = pair.public_key().to_vec();
    assert_eq!(bytes.len(), 34);
    assert_eq!(bytes[0] % 16, 3);
    assert!(verify_signature(&bytes, b"message", &signature));
    assert!(!verify_signature(&bytes, b"massage", &signature));
    assert!(!verify_signature(&other.public_key().to_vec(), b"message", &signature));
    let entry = ManifestSignature { signer: identity(&pair), signature };
    assert!(entry.verify(b"message").verified);
}

#[test]
fn secp256k1_keys_off_the_curve_verify_nothing() {
    let signature = keypair(11, KeyType::Secp256k1).sign(b"message").unwrap();
    let mut off = 0;
    let mut on = 0;
    for x in 0..64u8 {
        let mut bytes = vec![3u8, 2];
        bytes.extend_from_slice(&[0u8; 31]);
        bytes.push(x);
        if k256::PublicKey::from_sec1_bytes(&bytes[1..]).is_err() {
            off += 1;
        } else {
            on += 1;
        }
        assert!(!verify_signature(&bytes, b"message", &signature));
    }
    assert!(off > 0 && on > 0);
    assert!(!verify_signature(&[3; 34], b"message", &signature));
    assert!(!verify_signature(&[3], b"message", &signature));
    assert!(!verify_signature(&[0x13, 2, 0, 0], b"message", &signature));
    assert!(!verify_signature(&[0x23, 2, 0, 0], b"message", &signature));
}

#[test]
fn signers_of_all_key_types_endorse_together() {
    let pairs = [
        keypair(1, KeyType::Ed25519),
        keypair(2, KeyType::Secp256k1),
        keypair(3, KeyType::EccCompact),
    ];
    let f = sample();
    let message = f.signing_bytes();
    let km = PublicKeyManifest::with_threshold(pairs.iter().map(identity).collect(), None);
    assert_eq!(km.required, 3);
    let m = Manifest {
        serial: 7,
        hash: String::new(),
        signatures: pairs
            .iter()
            .map(|p| ManifestSignature { signer: identity(p), signature: p.sign(&message).unwrap() })
            .collect(),
    };
    let signature = m.sign(&km).unwrap();
    assert!(verify_aggregate(&km.derive_composite().unwrap().bytes, &message, &signature));
}

#[test]
fn implied_threshold_is_all_signers() {
    let keys = vec![key(1), key(2), key(3)];
    assert_eq!(
        PublicKeyManifest::with_threshold(keys.clone(), None),
        PublicKeyManifest { public_keys: keys.clone(), required: 3 }
    );
    assert_eq!(
        PublicKeyManifest::with_threshold(keys.clone(), Some(2)),
        PublicKeyManifest { public_keys: keys.clone(), required: 2 }
    );
    assert_eq!(PublicKeyManifest::with_threshold(keys.clone(), Some(0)).required, 0);
    assert_eq!(PublicKeyManifest::with_threshold(vec![], None).required, 0);
    assert!(!PublicKeyManifest::with_threshold(vec![], None).is_wf());
    let many: Vec<Identity> = (0..300u32).map(|i| Identity::new(i.to_le_bytes().to_vec())).collect();
    assert_eq!(PublicKeyManifest::with_threshold(many.clone(), None).required, 255);
    assert_eq!(PublicKeyManifest::with_threshold(many[..255].to_vec(), None).required, 255);
    assert!(PublicKeyManifest::with_threshold(many[..255].to_vec(), None).is_wf());
}

#[test]
fn aggregate_signature_does_not_name_the_threshold() {
    let f = sample();
    let message = f.signing_bytes();
    let three = signers(&[1, 2, 3], 3);
    let two = signers(&[1, 2, 3], 2);
    let collected = manifest(&f, &[1, 3], &[1, 2, 3]);
    let signature = collected.sign(&three).unwrap();
    assert_eq!(signature, collected.sign(&two).unwrap());
    assert!(!verify_aggregate(&three.derive_composite().unwrap().bytes, &message, &signature));
    assert!(verify_aggregate(&two.derive_composite().unwrap().bytes, &message, &signature));
}

#[test]
fn manifest_signature_is_checked_against_its_own_signer() {
    let pair = signer(21);
    let good = ManifestSignature { signer: identity(&pair), signature: pair.sign(b"bytes").unwrap() };
    let found = good.verify(b"bytes");
    assert_eq!(found.signer, identity(&pair));
    assert!(found.verified);
    assert!(!good.verify(b"other bytes").verified);
    let unsigned = ManifestSignature::unsigned(&identity(&pair));
    assert_eq!(unsigned.signer, identity(&pair));
    assert!(unsigned.signature.is_empty());
    assert!(!unsigned.verify(b"bytes").verified);
}

#[test]
fn composite_key_has_tag_threshold_count_and_digest() {
    let km = signers(&[1, 2, 3], 2);
    let composite = km.derive_composite().unwrap();
    let mut block = Vec::new();
    for k in &km.public_keys {
        block.push(k.bytes.len() as u8);
        block.extend_from_slice(&k.bytes);
    }
    let mut expected = vec![2u8, 2, 3];
    expected.extend_from_slice(&Sha256::digest(&block));
    assert_eq!(composite.bytes, expected);
    assert_eq!(composite.bytes.len(), 35);
}

#[test]
fn composite_key_depends_on_order_and_threshold() {
    let a = signers(&[1, 2, 3], 2).derive_composite().unwrap();
    assert_eq!(a, signers(&[1, 2, 3], 2).derive_composite().unwrap());
    assert_ne!(a, signers(&[3, 2, 1], 2).derive_composite().unwrap());
    assert_ne!(a, signers(&[1, 2, 3], 3).derive_composite().unwrap());
    assert_ne!(a, signers(&[1, 2], 2).derive_composite().unwrap());
    assert_ne!(a, signers(&[1, 2, 4], 2).derive_composite().unwrap());
}

#[test]
fn signer_sets_that_are_not_well_formed_have_no_composite_key() {
    assert_eq!(signers(&[1, 2], 0).derive_composite(), Err(Error::MalformedInput));
    assert_eq!(signers(&[1, 2], 3).derive_composite(), Err(Error::MalformedInput));
    assert_eq!(signers(&[], 0).derive_composite(), Err(Error::MalformedInput));
    assert_eq!(signers(&[1, 2, 1], 2).derive_composite(), Err(Error::MalformedInput));
    let long = PublicKeyManifest { public_keys: vec![Identity::new(vec![1; 256])], required: 1 };
    assert_eq!(long.derive_composite(), Err(Error::MalformedInput));
    assert!(!long.is_wf());
    let many = PublicKeyManifest {
        public_keys: (0..=255u8).map(|i| Identity::new(vec![1, i])).chain([key(9)]).collect(),
        required: 1,
    };
    assert_eq!(many.public_keys.len(), 257);
    assert_eq!(many.derive_composite(), Err(Error::MalformedInput));
    assert!(signers(&[1, 2], 2).is_wf());
    assert!(PublicKeyManifest { public_keys: vec![Identity::new(vec![1; 255])], required: 1 }.is_wf());
}

#[test]
fn aggregate_signature_has_known_bytes() {
    let km = PublicKeyManifest { public_keys: vec![key(1), key(2), key(3)], required: 1 };
    let m = Manifest {
        serial: 1,
        hash: String::new(),
        signatures: vec![
            ManifestSignature { signer: key(3), signature: vec![0xc0, 0xc1] },
            ManifestSignature { signer: key(9), signature: vec![0x99] },
            ManifestSignature { signer: key(1), signature: vec![] },
            ManifestSignature { signer: key(1), signature: vec![0xa0] },
            ManifestSignature { signer: key(1), signature: vec![0xa1] },
        ],
    };
    let expected = vec![
        4, 1, 1, 1, 1, 4, 1, 2, 2, 2, 4, 1, 3, 3, 3, // the keys
        0, 1, 0xa0, // the first signature of the first signer
        2, 2, 0xc0, 0xc1, // that of the third
    ];
    assert_eq!(m.sign(&km), Ok(expected.clone()));
    let (keys, used) = read_keys(&expected, 3).unwrap();
    assert_eq!(keys, km.public_keys);
    assert_eq!(used, 15);
    assert_eq!(
        read_entries(&expected[used..]).unwrap(),
        vec![
            Endorsement { index: 0, signature: vec![0xa0] },
            Endorsement { index: 2, signature: vec![0xc0, 0xc1] },
        ]
    );
}

#[test]
fn aggregate_signature_parts_are_read_as_written() {
    let keys = vec![key(1), Identity::new(vec![]), Identity::new(vec![7; 255])];
    let entries = vec![
        Endorsement { index: 0, signature: vec![] },
        Endorsement { index: 5, signature: vec![1; 255] },
    ];
    let mut out = vec![0xffu8];
    write_keys(&mut out, &keys);
    assert_eq!(out.len(), 1 + 3 + 4 + 255);
    let (back, used) = read_keys(&out[1..], 3).unwrap();
    assert_eq!((back, used), (keys.clone(), out.len() - 1));
    assert!(read_keys(&out[1..], 4).is_none());
    assert!(read_keys(&out[1..out.len() - 1], 3).is_none());
    assert_eq!(read_keys(&out[1..], 0), Some((vec![], 0)));
    let mut tail = Vec::new();
    write_entries(&mut tail, &entries);
    assert_eq!(tail.len(), 2 + 2 + 255);
    assert_eq!(read_entries(&tail), Some(entries.clone()));
    assert_eq!(read_entries(&tail[..tail.len() - 1]), None);
    assert_eq!(read_entries(&tail[..3]), None);
    assert_eq!(read_entries(&[]), Some(vec![]));
    assert!(all_short(&keys));
    assert!(!all_short(&vec![Identity::new(vec![7; 256])]));
    assert!(all_distinct(&keys));
    assert!(!all_distinct(&vec![key(1), key(2), key(1)]));
    assert!(is_ascending(&entries, 6));
    assert!(!is_ascending(&entries, 5));
    assert!(!is_ascending(&vec![entries[1].clone(), entries[0].clone()], 6));
    assert!(!is_ascending(&vec![entries[0].clone(), entries[0].clone()], 6));
}

#[test]
fn signing_fails_on_what_does_not_fit() {
    let km = PublicKeyManifest { public_keys: vec![key(1)], required: 1 };
    let long = Manifest {
        serial: 1,
        hash: String::new(),
        signatures: vec![ManifestSignature { signer: key(1), signature: vec![1; 256] }],
    };
    assert_eq!(long.sign(&km), Err(Error::MalformedInput));
    let other = Manifest {
        serial: 1,
        hash: String::new(),
        signatures: vec![ManifestSignature { signer: key(2), signature: vec![1; 256] }],
    };
    assert_eq!(other.sign(&km), Ok(vec![4, 1, 1, 1, 1]));
    let bad = PublicKeyManifest { public_keys: vec![key(1)], required: 2 };
    assert_eq!(other.sign(&bad), Err(Error::MalformedInput));
}

#[test]
fn valid_endorsements_are_counted() {
    let pairs = [signer(1), signer(2), signer(3)];
    let keys: Vec<Identity> = pairs.iter().map(identity).collect();
    let entries = vec![
        Endorsement { index: 0, signature: pairs[0].sign(b"m").unwrap() },
        Endorsement { index: 1, signature: pairs[0].sign(b"m").unwrap() },
        Endorsement { index: 2, signature: pairs[2].sign(b"m").unwrap() },
    ];
    assert_eq!(count_valid(&keys, b"m", &entries), 2);
    assert_eq!(count_valid(&keys, b"n", &entries), 0);
    assert_eq!(count_valid(&keys, b"m", &vec![]), 0);
}

#[test]
fn signed_filter_verifies_under_the_composite_key() {
    let mut f = sample();
    let km = signers(&[1, 2], 2);
    let composite = km.derive_composite().unwrap();
    let signature = manifest(&f, &[1, 2], &[1, 2]).sign(&km).unwrap();
    assert_eq!(f.verify(&composite), Err(Error::VerificationFailure));
    f.stamp_signature(signature, 7).unwrap();
    assert_eq!(f.verify(&composite), Ok(()));
    let back = Filter::from_bytes(&f.to_bytes()).unwrap();
    assert_eq!(back.verify(&composite), Ok(()));
}

#[test]
fn signature_does_not_verify_for_other_bytes_or_other_signers() {
    let f = sample();
    let km = signers(&[1, 2], 2);
    let composite = km.derive_composite().unwrap();
    let signature = manifest(&f, &[1, 2], &[1, 2]).sign(&km).unwrap();
    let message = f.signing_bytes();
    assert!(verify_aggregate(&composite.bytes, &message, &signature));
    let mut other = message.clone();
    other[0] ^= 1;
    assert!(!verify_aggregate(&composite.bytes, &other, &signature));
    for set in [signers(&[1, 3], 2), signers(&[2, 1], 2), signers(&[1, 2, 3], 2), signers(&[1], 1)] {
        let key = set.derive_composite().unwrap();
        assert!(!verify_aggregate(&key.bytes, &message, &signature));
    }
    assert!(!verify_aggregate(&composite.bytes[..2], &message, &signature));
    assert!(!verify_aggregate(&identity(&signer(1)).bytes, &message, &signature));
    let mut zero = composite.bytes.clone();
    zero[1] = 0;
    assert!(!verify_aggregate(&zero, &message, &signature));
    let mut longer = signature.clone();
    longer.push(0);
    assert!(!verify_aggregate(&composite.bytes, &message, &longer));
    assert!(!verify_aggregate(&composite.bytes, &message, &signature[..signature.len() - 1]));
    assert!(!verify_aggregate(&composite.bytes, &message, &[]));
}

#[test]
fn threshold_decides() {
    let f = sample();
    let message = f.signing_bytes();
    let two_of_three = signers(&[1, 2, 3], 2);
    let key = two_of_three.derive_composite().unwrap();
    let one = manifest(&f, &[2], &[1, 2, 3]).sign(&two_of_three).unwrap();
    let two = manifest(&f, &[3, 1], &[3, 2, 1]).sign(&two_of_three).unwrap();
    let three = manifest(&f, &[1, 2, 3], &[1, 2, 3]).sign(&two_of_three).unwrap();
    assert!(!verify_aggregate(&key.bytes, &message, &one));
    assert!(verify_aggregate(&key.bytes, &message, &two));
    assert!(verify_aggregate(&key.bytes, &message, &three));
}

#[test]
fn one_signature_does_not_count_twice() {
    let f = sample();
    let message = f.signing_bytes();
    let km = signers(&[1, 2], 2);
    let key = km.derive_composite().unwrap();
    let s = signer(1).sign(&message).unwrap();
    let mut forged = Vec::new();
    write_keys(&mut forged, &km.public_keys);
    let entry = Endorsement { index: 0, signature: s };
    write_entries(&mut forged, &vec![entry.clone(), entry]);
    assert!(!verify_aggregate(&key.bytes, &message, &forged));
}

#[test]
fn other_keys_in_the_signature_do_not_verify() {
    let f = sample();
    let message = f.signing_bytes();
    let key = signers(&[1, 2], 2).derive_composite().unwrap();
    let intruders = signers(&[5, 6], 2);
    let forged = manifest(&f, &[5, 6], &[5, 6]).sign(&intruders).unwrap();
    assert!(verify_aggregate(&intruders.derive_composite().unwrap().bytes, &message, &forged));
    assert!(!verify_aggregate(&key.bytes, &message, &forged));
}

#[test]
fn end_to_end() {
    let d = Descriptor {
        denied_keys: vec![key(1)],
        denied_edges: vec![Edge { source: key(2), target: key(3) }],
    };
    let km = signers(&[1, 2], 2);
    let mut f = Filter::build(7, &d).unwrap();
    let signature = manifest(&f, &[1, 2], &[1, 2]).sign(&km).unwrap();
    f.stamp_signature(signature, 7).unwrap();
    let back = Filter::from_bytes(&f.to_bytes()).unwrap();
    assert_eq!(back.verify(&km.derive_composite().unwrap()), Ok(()));
    assert_eq!(back.serial, 7);
    assert!(back.contains(&key(1)));
    assert!(back.contains_edge(&key(2), &key(3)));
    assert!(!back.contains_edge(&key(3), &key(2)));
    for other in 4..250 {
        assert!(!back.contains(&key(other)));
    }
}

#[test]
fn flipping_a_fingerprint_bit_breaks_the_signature() {
    let km = signers(&[1, 2], 2);
    let composite = km.derive_composite().unwrap();
    let mut f = sample();
    let signature = manifest(&f, &[1, 2], &[1, 2]).sign(&km).unwrap();
    f.stamp_signature(signature, 7).unwrap();
    let bytes = f.to_bytes();
    let start = bytes.len() - 4 * f.fingerprints.len();
    for at in start..bytes.len() {
        for bit in 0..8 {
            let mut tampered = bytes.clone();
            tampered[at] ^= 1 << bit;
            let g = Filter::from_bytes(&tampered).unwrap();
            assert_ne!(g.hash(), f.hash());
            assert_eq!(g.verify(&composite), Err(Error::VerificationFailure));
        }
    }
    let mut serial = bytes.clone();
    serial[0] ^= 1;
    assert_eq!(
        Filter::from_bytes(&serial).unwrap().verify(&composite),
        Err(Error::VerificationFailure)
    );
}
