use base64::engine::general_purpose::STANDARD;
use base64::Engine;
use denylist::cmd::filter::{
    verified, Cmd as FilterCmd, Contains, FilterCommand, FilterInfo, FilterOutput,
    Generate as FilterGenerate, Info, Membership, Verified, Verify as FilterVerify,
};
use denylist::cmd::manifest::{
    Cmd as ManifestCmd, Generate as ManifestGenerate, ManifestCommand, ManifestOutput,
    Verify as ManifestVerify,
};
use denylist::error::Error;
use denylist::filter::Filter;
use denylist::identity::{Descriptor, Edge, Identity};
use denylist::manifest::{Manifest, ManifestSignature, ManifestSignatureVerify};
use denylist::multisig::PublicKeyManifest;
use helium_crypto::{KeyTag, KeyType, Keypair, Network, Sign};

fn pair(seed: u8) -> Keypair {
    let tag = KeyTag { network: Network::MainNet, key_type: KeyType::Ed25519 };
    Keypair::generate_from_entropy(tag, &[seed; 32]).unwrap()
}

fn id(seed: u8) -> Identity {
    Identity::new(pair(seed).public_key().to_vec())
}

fn denied() -> Descriptor {
    Descriptor {
        denied_keys: vec![id(101), id(102)],
        denied_edges: vec![Edge { source: id(103), target: id(104) }],
    }
}

fn key_manifest() -> PublicKeyManifest {
    PublicKeyManifest { public_keys: vec![id(1), id(2), id(3)], required: 2 }
}

fn generated() -> (Manifest, Vec<u8>) {
    let cmd = ManifestGenerate { input: denied(), key: key_manifest(), serial: 12 };
    let out = cmd.run().unwrap();
    (out.manifest, out.signing_bytes)
}

fn signed_by(seeds: &[u8]) -> (Manifest, Vec<u8>) {
    let (mut manifest, data) = generated();
    for entry in manifest.signatures.iter_mut() {
        for seed in seeds {
            if entry.signer == id(*seed) {
                entry.signature = pair(*seed).sign(&data).unwrap();
            }
        }
    }
    (manifest, data)
}

#[test]
fn manifest_generate_makes_an_unsigned_manifest() {
    let (manifest, data) = generated();
    let filter = Filter::build(12, &denied()).unwrap();
    assert_eq!(data, filter.signing_bytes());
    assert_eq!(manifest.serial, 12);
    assert_eq!(manifest.hash, STANDARD.encode(filter.hash()));
    assert_eq!(
        manifest.signatures,
        vec![
            ManifestSignature { signer: id(1), signature: vec![] },
            ManifestSignature { signer: id(2), signature: vec![] },
            ManifestSignature { signer: id(3), signature: vec![] },
        ]
    );
}

#[test]
fn manifest_hash_is_base64_text_of_the_digest() {
    let input = Descriptor { denied_keys: vec![Identity::new(b"a".to_vec())], denied_edges: vec![] };
    let cmd = ManifestGenerate { input, key: key_manifest(), serial: 7 };
    let out = cmd.run().unwrap();
    assert_eq!(out.manifest.hash, "H/DFLI3qdOliSA+oZIucQusJad7pdct0h6xP/pBdlTA=");
}

#[test]
fn manifest_verify_reports_hash_and_signers() {
    let (manifest, data) = signed_by(&[1, 3]);
    let cmd = ManifestVerify { data: data.clone(), key: key_manifest(), manifest: manifest.clone() };
    let report = cmd.run().unwrap();
    assert_eq!(report.serial, 12);
    assert_eq!(report.hash, manifest.hash);
    assert!(report.hash_verified);
    assert_eq!(report.public_key, key_manifest().derive_composite().unwrap());
    assert_eq!(
        report.signatures,
        vec![
            ManifestSignatureVerify { signer: id(1), verified: true },
            ManifestSignatureVerify { signer: id(2), verified: false },
            ManifestSignatureVerify { signer: id(3), verified: true },
        ]
    );
}

#[test]
fn manifest_verify_reports_a_wrong_hash() {
    let (mut manifest, data) = signed_by(&[1]);
    manifest.hash = STANDARD.encode([7u8; 32]);
    let report = ManifestVerify { data, key: key_manifest(), manifest }.run().unwrap();
    assert!(!report.hash_verified);
    assert!(report.signatures[0].verified);
}

#[test]
fn manifest_verify_fails_on_what_it_cannot_read() {
    let (manifest, data) = signed_by(&[1]);
    let mut text = manifest.clone();
    text.hash = "not base64!".to_string();
    let cmd = ManifestVerify { data: data.clone(), key: key_manifest(), manifest: text };
    assert_eq!(cmd.run(), Err(Error::MalformedInput));
    let mut keys = key_manifest();
    keys.required = 4;
    let cmd = ManifestVerify { data: data.clone(), key: keys, manifest: manifest.clone() };
    assert_eq!(cmd.run(), Err(Error::MalformedInput));
    let cmd = ManifestVerify { data: data[1..].to_vec(), key: key_manifest(), manifest: manifest.clone() };
    assert_eq!(cmd.run(), Err(Error::MalformedInput));
    let mut serial = manifest.clone();
    serial.serial = 13;
    let cmd = ManifestVerify { data, key: key_manifest(), manifest: serial };
    assert_eq!(cmd.run(), Err(Error::SchemaMismatch));
}

#[test]
fn filter_generate_makes_the_signed_filter() {
    let (manifest, data) = signed_by(&[1, 2]);
    let cmd = FilterGenerate { data: data.clone(), key: key_manifest(), manifest: manifest.clone() };
    let out = cmd.run().unwrap();
    assert!(out.verified);
    assert_eq!(out.address, key_manifest().derive_composite().unwrap());
    let filter = Filter::from_bytes(&out.filter).unwrap();
    assert_eq!(filter.serial, 12);
    assert_eq!(filter.signature, manifest.sign(&key_manifest()).unwrap());
    assert_eq!(filter.signing_bytes(), data);
    assert!(filter.contains(&id(101)));
    assert!(filter.contains_edge(&id(103), &id(104)));
}

#[test]
fn filter_generate_fails_on_too_few_signatures() {
    let (manifest, data) = signed_by(&[2]);
    let cmd = FilterGenerate { data: data.clone(), key: key_manifest(), manifest };
    assert_eq!(cmd.run(), Err(Error::VerificationFailure));
    let (unsigned, _) = generated();
    let cmd = FilterGenerate { data, key: key_manifest(), manifest: unsigned };
    assert_eq!(cmd.run(), Err(Error::VerificationFailure));
}

#[test]
fn filter_generate_fails_on_signatures_over_other_bytes() {
    let (mut manifest, data) = generated();
    let other = Filter::build(12, &Descriptor { denied_keys: vec![id(7)], denied_edges: vec![] })
        .unwrap()
        .signing_bytes();
    for entry in manifest.signatures.iter_mut() {
        for seed in [1u8, 2, 3] {
            if entry.signer == id(seed) {
                entry.signature = pair(seed).sign(&other).unwrap();
            }
        }
    }
    let cmd = FilterGenerate { data: other, key: key_manifest(), manifest: manifest.clone() };
    assert!(cmd.run().is_ok());
    let cmd = FilterGenerate { data, key: key_manifest(), manifest };
    assert_eq!(cmd.run(), Err(Error::VerificationFailure));
}

#[test]
fn filter_generate_fails_on_what_does_not_match() {
    let (manifest, data) = signed_by(&[1, 2]);
    let mut serial = manifest.clone();
    serial.serial = 11;
    let cmd = FilterGenerate { data: data.clone(), key: key_manifest(), manifest: serial };
    assert_eq!(cmd.run(), Err(Error::SchemaMismatch));
    let cmd = FilterGenerate { data: data[..20].to_vec(), key: key_manifest(), manifest: manifest.clone() };
    assert_eq!(cmd.run(), Err(Error::MalformedInput));
    let mut keys = key_manifest();
    keys.required = 0;
    let cmd = FilterGenerate { data: data.clone(), key: keys, manifest: manifest.clone() };
    assert_eq!(cmd.run(), Err(Error::MalformedInput));
    let signed = FilterGenerate { data, key: key_manifest(), manifest: manifest.clone() }.run().unwrap();
    let cmd = FilterGenerate { data: signed.filter, key: key_manifest(), manifest };
    assert_eq!(cmd.run(), Err(Error::MalformedInput));
}

#[test]
fn filter_verify_checks_the_signature() {
    let (manifest, data) = signed_by(&[1, 2]);
    let signed = FilterGenerate { data: data.clone(), key: key_manifest(), manifest }.run().unwrap();
    let cmd = FilterVerify { input: signed.filter.clone(), key: key_manifest() };
    assert_eq!(
        cmd.run(),
        Ok(Verified { address: key_manifest().derive_composite().unwrap(), verified: true })
    );
    let cmd = FilterVerify { input: data, key: key_manifest() };
    assert_eq!(cmd.run(), Err(Error::VerificationFailure));
    let mut others = key_manifest();
    others.public_keys[0] = id(9);
    let cmd = FilterVerify { input: signed.filter.clone(), key: others };
    assert_eq!(cmd.run(), Err(Error::VerificationFailure));
    let cmd = FilterVerify { input: signed.filter[2..].to_vec(), key: key_manifest() };
    assert_eq!(cmd.run(), Err(Error::MalformedInput));
    let mut keys = key_manifest();
    keys.public_keys[1] = id(1);
    let cmd = FilterVerify { input: signed.filter, key: keys };
    assert_eq!(cmd.run(), Err(Error::MalformedInput));
}

#[test]
fn contains_looks_up_keys_and_edges() {
    let (_, data) = generated();
    let run = |key: u8, target: Option<u8>| {
        Contains { input: data.clone(), key: id(key), target: target.map(id) }.run()
    };
    assert_eq!(run(101, None), Ok(Membership { address: id(101), in_filter: true }));
    assert_eq!(run(103, None), Ok(Membership { address: id(103), in_filter: false }));
    assert_eq!(run(103, Some(104)), Ok(Membership { address: id(103), in_filter: true }));
    assert_eq!(run(104, Some(103)), Ok(Membership { address: id(104), in_filter: false }));
    let cmd = Contains { input: vec![1, 2, 3], key: id(101), target: None };
    assert_eq!(cmd.run(), Err(Error::MalformedInput));
}

#[test]
fn info_describes_the_filter() {
    let (manifest, data) = signed_by(&[1, 2]);
    let signature = manifest.sign(&key_manifest()).unwrap();
    let signed = FilterGenerate { data: data.clone(), key: key_manifest(), manifest }.run().unwrap();
    let fingerprints = Filter::from_bytes(&data).unwrap().fingerprints.len();
    assert_eq!(fingerprints, 12);
    assert_eq!(
        Info { input: signed.filter }.run(),
        Ok(FilterInfo { serial: 12, signature, fingerprints })
    );
    assert_eq!(
        Info { input: data }.run(),
        Ok(FilterInfo { serial: 12, signature: vec![], fingerprints })
    );
    assert_eq!(Info { input: vec![] }.run(), Err(Error::MalformedInput));
}

#[test]
fn verified_record_holds_what_it_is_given() {
    assert_eq!(verified(id(1), false), Verified { address: id(1), verified: false });
}

#[test]
fn filter_commands_dispatch() {
    let (manifest, data) = signed_by(&[1, 2]);
    let generate = FilterGenerate { data: data.clone(), key: key_manifest(), manifest };
    let signed = generate.run().unwrap();
    let cmd = FilterCmd { cmd: FilterCommand::Generate(generate) };
    assert_eq!(cmd.run(), Ok(FilterOutput::Generated(signed.clone())));
    let verify = FilterVerify { input: signed.filter.clone(), key: key_manifest() };
    assert_eq!(
        FilterCommand::Verify(verify.clone()).run(),
        Ok(FilterOutput::Verified(verify.run().unwrap()))
    );
    let contains = Contains { input: data.clone(), key: id(101), target: None };
    assert_eq!(
        FilterCommand::Contains(contains.clone()).run(),
        Ok(FilterOutput::Membership(contains.run().unwrap()))
    );
    let info = Info { input: data };
    assert_eq!(FilterCommand::Info(info.clone()).run(), Ok(FilterOutput::Info(info.run().unwrap())));
    assert_eq!(FilterCommand::Info(Info { input: vec![] }).run(), Err(Error::MalformedInput));
}

#[test]
fn manifest_commands_dispatch() {
    let generate = ManifestGenerate { input: denied(), key: key_manifest(), serial: 12 };
    let out = generate.run().unwrap();
    let cmd = ManifestCmd { cmd: ManifestCommand::Generate(generate) };
    assert_eq!(cmd.run(), Ok(ManifestOutput::Generated(out.clone())));
    let verify = ManifestVerify { data: out.signing_bytes, key: key_manifest(), manifest: out.manifest };
    assert_eq!(
        ManifestCommand::Verify(verify.clone()).run(),
        Ok(ManifestOutput::Report(verify.run().unwrap()))
    );
}
