use denylist::assign::fill;
use denylist::error::Error;
use denylist::filter::{Filter, MAX_ATTEMPTS};
use denylist::hash::{attempt_seed, fingerprint_of, hash_extend, mix_hash, HASH_BASIS};
use denylist::identity::{bytes_eq, copy_bytes, hash_edge, Descriptor, Edge, Identity};
use denylist::items::distinct_hashes;
use denylist::layout::{layout_for, Layout, Triple};
use denylist::peel::{peel, Pick};

fn key(n: u32) -> Identity {
    let mut bytes = vec![1u8];
    for i in 0..8u32 {
        bytes.extend_from_slice(&(n.wrapping_mul(2654435761).wrapping_add(i)).to_le_bytes());
    }
    Identity::new(bytes)
}

fn descriptor(keys: u32, edges: u32) -> Descriptor {
    Descriptor {
        denied_keys: (0..keys).map(key).collect(),
        denied_edges: (0..edges)
            .map(|i| Edge { source: key(1_000_000 + i), target: key(2_000_000 + i) })
            .collect(),
    }
}

fn unhex(text: &str) -> Vec<u8> {
    (0..text.len() / 2).map(|i| u8::from_str_radix(&text[2 * i..2 * i + 2], 16).unwrap()).collect()
}

const SINGLE: &str = "0700000000000000157c4a7fb979379e04000000010000000c000000000000000000000000000000f778dbe50000000000000000000000000000000000000000000000000000000000000000";

#[test]
fn byte_hash_of_known_strings() {
    assert_eq!(hash_extend(HASH_BASIS, b""), 0xcbf29ce484222325);
    assert_eq!(hash_extend(HASH_BASIS, b"a"), 0xaf63dc4c8601ec8c);
    assert_eq!(hash_extend(HASH_BASIS, b"foobar"), 0x85944171f73967e8);
    assert_eq!(Identity::new(b"foobar".to_vec()).hash(), 0x85944171f73967e8);
}

#[test]
fn edge_hash_is_that_of_the_concatenation() {
    let source = Identity::new(b"foo".to_vec());
    let target = Identity::new(b"bar".to_vec());
    assert_eq!(hash_edge(&source, &target), 0x85944171f73967e8);
    assert_eq!(Edge { source: source.clone(), target: target.clone() }.hash(), 0x85944171f73967e8);
    assert_ne!(hash_edge(&target, &source), hash_edge(&source, &target));
}

#[test]
fn seeds_and_mixing_of_known_values() {
    assert_eq!(attempt_seed(0), 0x9e3779b97f4a7c15);
    assert_eq!(attempt_seed(1), 0x3c6ef372fe94f82a);
    assert_eq!(mix_hash(0, 0), 0);
    assert_eq!(mix_hash(1, 0x9e3779b97f4a7c15), 0xe5fdc025e13eeed5);
    assert_eq!(mix_hash(0x85944171f73967e8, 0x9e3779b97f4a7c15), 0xf2db56a4a0e8e137);
    assert_eq!(fingerprint_of(0xf2db56a4a0e8e137), 0x5233b793);
}

#[test]
fn layouts_of_known_sizes() {
    assert_eq!(layout_for(0), Layout { segment_length: 4, segment_count: 0 });
    assert_eq!(layout_for(1), Layout { segment_length: 4, segment_count: 1 });
    assert_eq!(layout_for(3), Layout { segment_length: 4, segment_count: 1 });
    assert_eq!(layout_for(100), Layout { segment_length: 32, segment_count: 4 });
    assert_eq!(layout_for(1000), Layout { segment_length: 128, segment_count: 9 });
    assert_eq!(layout_for(100000), Layout { segment_length: 2048, segment_count: 55 });
    assert_eq!(layout_for(1 << 30), Layout { segment_length: 262144, segment_count: 4608 });
    assert_eq!(layout_for(1000).slot_count(), 1408);
    assert_eq!(layout_for(0).slot_count(), 0);
}

#[test]
fn layout_well_formedness() {
    assert!(Layout { segment_length: 0, segment_count: 0 }.is_wf());
    assert!(!Layout { segment_length: 0, segment_count: 1 }.is_wf());
    assert!(Layout { segment_length: 1, segment_count: u32::MAX - 2 }.is_wf());
    assert!(!Layout { segment_length: 1, segment_count: u32::MAX - 1 }.is_wf());
    assert!(!Layout { segment_length: u32::MAX, segment_count: u32::MAX }.is_wf());
}

#[test]
fn slots_of_a_known_hash() {
    let layout = layout_for(1000);
    assert_eq!(layout.slots_of(0xf2db56a4a0e8e137), Triple { a: 567, b: 698, c: 874 });
}

#[test]
fn slots_are_ascending_and_in_range() {
    for n in [1usize, 2, 7, 100, 5000] {
        let layout = layout_for(n);
        for i in 0..2000u64 {
            let t = layout.slots_of(mix_hash(i, 99));
            assert!(t.a < t.b && t.b < t.c && t.c < layout.slot_count());
        }
    }
}

#[test]
fn distinct_keeps_first_occurrences() {
    assert_eq!(distinct_hashes(&vec![3, 1, 3, 2, 1]), vec![3, 1, 2]);
    assert_eq!(distinct_hashes(&vec![]), Vec::<u64>::new());
}

#[test]
fn peel_takes_the_lowest_free_slot_first() {
    let g = vec![Triple { a: 0, b: 1, c: 2 }, Triple { a: 0, b: 1, c: 3 }];
    let order = peel(&g, 4);
    assert_eq!(order, vec![Pick { item: 0, slot: 2 }, Pick { item: 1, slot: 0 }]);
    let prints = vec![0xaaaa_0001u32, 0x0000_bbbb];
    let table = fill(&g, &prints, &order, 4);
    assert_eq!(table, vec![0x0000_bbbb, 0, 0xaaaa_0001 ^ 0x0000_bbbb, 0]);
    assert_eq!(table[0] ^ table[1] ^ table[2], prints[0]);
    assert_eq!(table[0] ^ table[1] ^ table[3], prints[1]);
}

#[test]
fn peel_stalls_on_items_with_the_same_slots() {
    let g = vec![Triple { a: 0, b: 1, c: 2 }, Triple { a: 0, b: 1, c: 2 }, Triple { a: 2, b: 3, c: 4 }];
    assert_eq!(peel(&g, 5), vec![Pick { item: 2, slot: 3 }]);
    assert_eq!(peel(&Vec::new(), 5), Vec::<Pick>::new());
}

#[test]
fn byte_helpers() {
    assert!(bytes_eq(b"abc", b"abc"));
    assert!(!bytes_eq(b"abc", b"abd"));
    assert!(!bytes_eq(b"abc", b"ab"));
    assert_eq!(copy_bytes(b"abc"), b"abc".to_vec());
    assert!(key(1).same(&key(1)));
    assert!(!key(1).same(&key(2)));
    assert_eq!(key(5).duplicate(), key(5));
}

#[test]
fn build_of_one_key_has_known_bytes() {
    let d = Descriptor { denied_keys: vec![Identity::new(b"a".to_vec())], denied_edges: vec![] };
    let f = Filter::build(7, &d).unwrap();
    assert_eq!(f.serial, 7);
    assert!(f.signature.is_empty());
    assert_eq!(f.seed, 0x9e3779b97f4a7c15);
    assert_eq!(f.layout, Layout { segment_length: 4, segment_count: 1 });
    assert_eq!(f.fingerprints.len(), 12);
    assert_eq!(f.fingerprints[3], 0xe5db78f7);
    assert_eq!(f.to_bytes(), unhex(SINGLE));
    assert_eq!(f.signing_bytes(), unhex(SINGLE));
    assert!(f.contains(&Identity::new(b"a".to_vec())));
    assert!(!f.contains(&Identity::new(b"b".to_vec())));
}

#[test]
fn no_false_negatives() {
    for (keys, edges) in [(1u32, 0u32), (0, 1), (3, 2), (50, 50), (2000, 500), (20000, 3000)] {
        let d = descriptor(keys, edges);
        let f = Filter::build(1, &d).unwrap();
        assert!(f.is_wf());
        for k in &d.denied_keys {
            assert!(f.contains(k));
        }
        for e in &d.denied_edges {
            assert!(f.contains_edge(&e.source, &e.target));
        }
    }
}

#[test]
fn builds_of_many_sizes_succeed() {
    for n in 1..200u32 {
        let d = descriptor(n, n / 3);
        let f = Filter::build(n, &d).unwrap();
        assert_eq!(f.layout, layout_for((n + n / 3) as usize));
        assert!((0..MAX_ATTEMPTS).any(|a| attempt_seed(a) == f.seed));
        assert!(d.denied_keys.iter().all(|k| f.contains(k)));
    }
}

#[test]
fn no_false_positives_in_a_sample() {
    let d = descriptor(1000, 200);
    let f = Filter::build(1, &d).unwrap();
    let mut hits = 0;
    for i in 0..100_000u32 {
        if f.contains(&key(5_000_000 + i)) {
            hits += 1;
        }
        if f.contains_edge(&key(5_000_000 + i), &key(i)) {
            hits += 1;
        }
    }
    assert_eq!(hits, 0);
}

#[test]
fn edges_are_directed_and_apart_from_keys() {
    let d = Descriptor {
        denied_keys: vec![key(1)],
        denied_edges: vec![Edge { source: key(2), target: key(3) }],
    };
    let f = Filter::build(7, &d).unwrap();
    assert!(f.contains(&key(1)));
    assert!(f.contains_edge(&key(2), &key(3)));
    assert!(!f.contains_edge(&key(3), &key(2)));
    assert!(!f.contains(&key(2)));
    assert!(!f.contains(&key(3)));
    assert!(!f.contains_edge(&key(1), &key(1)));
}

#[test]
fn empty_descriptor_reports_everything_absent() {
    let f = Filter::build(3, &descriptor(0, 0)).unwrap();
    assert!(f.fingerprints.is_empty());
    assert_eq!(f.layout.segment_count, 0);
    for i in 0..1000 {
        assert!(!f.contains(&key(i)));
        assert!(!f.contains_edge(&key(i), &key(i + 1)));
    }
    let back = Filter::from_bytes(&f.to_bytes()).unwrap();
    assert_eq!(back, f);
}

#[test]
fn repeated_entries_are_one_item() {
    let d = Descriptor {
        denied_keys: vec![key(1), key(2), key(1), key(1)],
        denied_edges: vec![
            Edge { source: key(2), target: key(3) },
            Edge { source: key(2), target: key(3) },
        ],
    };
    let once = Descriptor {
        denied_keys: vec![key(1), key(2)],
        denied_edges: vec![Edge { source: key(2), target: key(3) }],
    };
    let f = Filter::build(1, &d).unwrap();
    assert_eq!(f, Filter::build(1, &once).unwrap());
    assert!(f.contains(&key(1)) && f.contains(&key(2)) && f.contains_edge(&key(2), &key(3)));
}

#[test]
fn round_trip_through_bytes() {
    let mut f = Filter::build(42, &descriptor(300, 40)).unwrap();
    assert_eq!(Filter::from_bytes(&f.to_bytes()), Ok(f.clone()));
    f.stamp_signature(vec![9, 8, 7, 6, 5], 42).unwrap();
    let bytes = f.to_bytes();
    assert_eq!(&bytes[0..4], &[42, 0, 0, 0]);
    assert_eq!(&bytes[4..8], &[5, 0, 0, 0]);
    assert_eq!(&bytes[8..13], &[9, 8, 7, 6, 5]);
    assert_eq!(bytes.len(), 8 + 5 + 20 + 4 * f.fingerprints.len());
    let back = Filter::from_bytes(&bytes).unwrap();
    assert_eq!(back, f);
    assert_eq!(back.signature, vec![9, 8, 7, 6, 5]);
    assert_eq!(back.serial, 42);
}

#[test]
fn malformed_bytes_are_refused() {
    let mut f = Filter::build(42, &descriptor(10, 0)).unwrap();
    f.stamp_signature(vec![1, 2, 3], 42).unwrap();
    let bytes = f.to_bytes();
    for cut in 0..bytes.len() {
        assert_eq!(Filter::from_bytes(&bytes[..cut]), Err(Error::MalformedInput));
    }
    let mut longer = bytes.clone();
    longer.push(0);
    assert_eq!(Filter::from_bytes(&longer), Err(Error::MalformedInput));
    let mut count = bytes.clone();
    count[8 + 3 + 16] ^= 1;
    assert_eq!(Filter::from_bytes(&count), Err(Error::MalformedInput));
    let mut length = bytes.clone();
    length[4] = 200;
    assert_eq!(Filter::from_bytes(&length), Err(Error::MalformedInput));
    assert_eq!(Filter::from_bytes(&[]), Err(Error::MalformedInput));
}

#[test]
fn signing_bytes_are_read_back_only_without_signature() {
    let mut f = Filter::build(42, &descriptor(10, 0)).unwrap();
    assert_eq!(Filter::from_signing_bytes(&f.signing_bytes()), Ok(f.clone()));
    f.stamp_signature(vec![1], 42).unwrap();
    assert_eq!(Filter::from_signing_bytes(&f.to_bytes()), Err(Error::MalformedInput));
    assert_eq!(Filter::from_signing_bytes(&[1, 2, 3]), Err(Error::MalformedInput));
}

#[test]
fn stamping_keeps_the_signing_bytes() {
    let mut f = Filter::build(5, &descriptor(20, 5)).unwrap();
    let before = f.signing_bytes();
    let hash = f.hash();
    assert_eq!(f.stamp_signature(vec![1, 2, 3, 4], 5), Ok(()));
    assert_eq!(f.signature, vec![1, 2, 3, 4]);
    assert_eq!(f.signing_bytes(), before);
    assert_eq!(f.hash(), hash);
    assert_ne!(f.to_bytes(), before);
    let stripped = Filter::from_bytes(&f.to_bytes()).unwrap();
    assert_eq!(stripped.signing_bytes(), before);
}

#[test]
fn stamping_with_another_serial_is_a_schema_mismatch() {
    let mut f = Filter::build(5, &descriptor(20, 5)).unwrap();
    let before = f.clone();
    assert_eq!(f.stamp_signature(vec![1, 2, 3, 4], 6), Err(Error::SchemaMismatch));
    assert_eq!(f, before);
}

#[test]
fn hash_is_stable_and_tells_filters_apart() {
    let d = descriptor(100, 10);
    let a = Filter::build(9, &d).unwrap();
    let b = Filter::build(9, &d).unwrap();
    assert_eq!(a, b);
    assert_eq!(a.hash(), b.hash());
    assert_eq!(a.hash().len(), 32);
    assert_ne!(a.hash(), Filter::build(10, &d).unwrap().hash());
    assert_ne!(a.hash(), Filter::build(9, &descriptor(100, 11)).unwrap().hash());
    assert_ne!(a.hash(), Filter::build(9, &descriptor(101, 10)).unwrap().hash());
}

#[test]
fn hash_is_the_sha256_digest_of_the_signing_bytes() {
    let d = Descriptor { denied_keys: vec![Identity::new(b"a".to_vec())], denied_edges: vec![] };
    let f = Filter::build(7, &d).unwrap();
    assert_eq!(
        f.hash(),
        unhex("1ff0c52c8dea74e962480fa8648b9c42eb0969dee975cb7487ac4ffe905d9530")
    );
}

#[test]
fn well_formedness_of_filters() {
    let f = Filter::build(5, &descriptor(20, 5)).unwrap();
    assert!(f.is_wf());
    let mut short = f.clone();
    short.fingerprints.pop();
    assert!(!short.is_wf());
    let mut odd = f.clone();
    odd.layout.segment_length = 0;
    assert!(!odd.is_wf());
}

#[test]
fn build_of_a_large_descriptor() {
    let d = descriptor(150_000, 50_000);
    let f = Filter::build(1, &d).unwrap();
    assert_eq!(f.layout, layout_for(200_000));
    assert!(d.denied_keys.iter().all(|k| f.contains(k)));
    assert!(d.denied_edges.iter().all(|e| f.contains_edge(&e.source, &e.target)));
    assert_eq!(Filter::from_bytes(&f.to_bytes()), Ok(f));
}
