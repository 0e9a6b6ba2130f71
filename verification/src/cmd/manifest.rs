//! Commands on manifests.

use crate::codec::{decode, lemma_decode_encode, signing_bytes};
use crate::digest::sha256;
use crate::encoding::{base64_bytes, base64_decode, base64_encode, base64_text};
use crate::error::Error;
use crate::filter::{cannot_build, is_build, items_of, Filter};
use crate::identity::{bytes_eq, Descriptor, Identity};
use crate::manifest::{
    signature_views, Manifest, ManifestSignature, ManifestSignatureVerify, ManifestSignatureView,
};
use crate::multisig::{composite_key, PublicKeyManifest};
use crate::signature::accepts;
use vstd::prelude::*;

verus! {

/// A new manifest, and the signing bytes of the filter it is for.
#[derive(Clone, Debug, PartialEq, Eq)]
pub struct GeneratedManifest {
    pub manifest: Manifest,
    pub signing_bytes: Vec<u8>,
}

/// What the verification of a manifest against signing bytes found.
#[derive(Clone, Debug, PartialEq, Eq)]
pub struct ManifestReport {
    pub serial: u32,
    pub hash: String,
    pub hash_verified: bool,
    pub public_key: Identity,
    pub signatures: Vec<ManifestSignatureVerify>,
}

/// The result of a command on manifests.
#[derive(Clone, Debug, PartialEq, Eq)]
pub enum ManifestOutput {
    Generated(GeneratedManifest),
    Report(ManifestReport),
}

/// A command on manifests.
#[derive(Clone, Debug, PartialEq, Eq)]
pub struct Cmd {
    pub cmd: ManifestCommand,
}

/// Commands on manifests.
#[derive(Clone, Debug, PartialEq, Eq)]
pub enum ManifestCommand {
    Generate(Generate),
    Verify(Verify),
}

/// Builds the filter of a descriptor and makes the manifest for it, with an
/// entry without signature for every signer.
#[derive(Clone, Debug, PartialEq, Eq)]
pub struct Generate {
    pub input: Descriptor,
    pub key: PublicKeyManifest,
    pub serial: u32,
}

/// Verifies a manifest against the signing bytes of a filter and a signer set.
#[derive(Clone, Debug, PartialEq, Eq)]
pub struct Verify {
    pub data: Vec<u8>,
    pub key: PublicKeyManifest,
    pub manifest: Manifest,
}

/// An entry without signature for each key.
pub open spec fn unsigned_for(keys: Seq<Seq<u8>>) -> Seq<ManifestSignatureView> {
    Seq::new(
        keys.len(),
        |i: int| ManifestSignatureView { signer: keys[i], signature: Seq::empty() },
    )
}

/// The outcome of each signer's signature over `message`.
pub open spec fn audits(
    sigs: Seq<ManifestSignatureView>,
    message: Seq<u8>,
    found: Seq<ManifestSignatureVerify>,
) -> bool {
    &&& found.len() == sigs.len()
    &&& forall|i: int|
        0 <= i < sigs.len() ==> (#[trigger] found[i]).signer@ == sigs[i].signer && found[i].verified
            == accepts(sigs[i].signer, message, sigs[i].signature)
}

impl Generate {
    /// What `run` returns: `ConstructionFailure` where no filter can be built
    /// over the descriptor; else the signing bytes of the filter built, and a
    /// manifest with the serial number, the base64 text of the SHA-256 digest
    /// of the signing bytes, and an entry without signature for every signer.
    pub open spec fn describes(&self, r: Result<GeneratedManifest, Error>) -> bool {
        match r {
            Ok(g) => {
                &&& !cannot_build(items_of(self.input@))
                &&& decode(g.signing_bytes@) matches Some(f) && is_build(
                    f,
                    self.serial,
                    items_of(self.input@),
                ) && signing_bytes(f) == g.signing_bytes@
                &&& g.manifest.serial == self.serial
                &&& g.manifest.hash@ == base64_text(sha256(g.signing_bytes@))
                &&& signature_views(g.manifest.signatures@) == unsigned_for(self.key@.keys)
            },
            Err(e) => e == Error::ConstructionFailure && cannot_build(items_of(self.input@)),
        }
    }

    /// Runs the command: see [`Generate::describes`].
    pub fn run(&self) -> (r: Result<GeneratedManifest, Error>)
        ensures
            self.describes(r),
    {
        let filter: Filter = match Filter::build(self.serial, &self.input) {
            Ok(filter) => filter,
            Err(e) => {
                return Err(e);
            },
        };
        let filter_hash: Vec<u8> = filter.hash();
        let mut signatures: Vec<ManifestSignature> = Vec::new();
        let mut i: usize = 0;
        while i < self.key.public_keys.len()
            invariant
                i <= self.key.public_keys.len(),
                signatures.len() == i,
                forall|j: int|
                    0 <= j < i ==> (#[trigger] signatures@[j])@ == unsigned_for(self.key@.keys)[j],
            decreases self.key.public_keys.len() - i,
        {
            let entry = ManifestSignature::unsigned(&self.key.public_keys[i]);
            proof {
                assert(entry.signature@ =~= Seq::empty());
                assert(self.key@.keys[i as int] == self.key.public_keys@[i as int]@);
            }
            signatures.push(entry);
            i += 1;
        }
        let manifest = Manifest {
            serial: self.serial,
            hash: base64_encode(filter_hash.as_slice()),
            signatures,
        };
        let signing: Vec<u8> = filter.signing_bytes();
        proof {
            assert(filter.signature@ =~= Seq::empty());
            assert(crate::codec::encode(filter@) == signing_bytes(filter@));
            lemma_decode_encode(filter@);
            assert(signature_views(manifest.signatures@) =~= unsigned_for(self.key@.keys));
        }
        Ok(GeneratedManifest { manifest, signing_bytes: signing })
    }
}

impl Verify {
    /// What `run` returns. `MalformedInput` where the manifest's hash is not
    /// base64 text, where the signer set is not well formed, and where the
    /// data is not the binary form of a filter without a signature.
    /// `SchemaMismatch` where the manifest and the filter disagree on the
    /// serial number. Else a report: the manifest's serial number and hash,
    /// whether that hash is the SHA-256 digest of the data, the composite key
    /// of the signer set, and for each signature of the manifest whether it is
    /// one of the data by its signer.
    pub open spec fn describes(&self, r: Result<ManifestReport, Error>) -> bool {
        match base64_bytes(self.manifest.hash@) {
            None => r matches Err(e) && e == Error::MalformedInput,
            Some(expected) => if !self.key@.wf() {
                r matches Err(e) && e == Error::MalformedInput
            } else {
                match decode(self.data@) {
                    None => r matches Err(e) && e == Error::MalformedInput,
                    Some(f) => if f.signature.len() > 0 {
                        r matches Err(e) && e == Error::MalformedInput
                    } else if self.manifest.serial != f.serial {
                        r matches Err(e) && e == Error::SchemaMismatch
                    } else {
                        &&& r matches Ok(report)
                        &&& report.serial == self.manifest.serial
                        &&& report.hash@ == self.manifest.hash@
                        &&& report.hash_verified == (expected == sha256(self.data@))
                        &&& report.public_key@ == composite_key(self.key@)
                        &&& audits(
                            signature_views(self.manifest.signatures@),
                            self.data@,
                            report.signatures@,
                        )
                    },
                }
            },
        }
    }

    /// Runs the command: see [`Verify::describes`].
    pub fn run(&self) -> (r: Result<ManifestReport, Error>)
        ensures
            self.describes(r),
    {
        let manifest_hash: Vec<u8> = match base64_decode(self.manifest.hash.as_str()) {
            Ok(bytes) => bytes,
            Err(_) => {
                return Err(Error::MalformedInput);
            },
        };
        let key: Identity = match self.key.derive_composite() {
            Ok(key) => key,
            Err(e) => {
                return Err(e);
            },
        };
        let filter: Filter = match Filter::from_signing_bytes(self.data.as_slice()) {
            Ok(filter) => filter,
            Err(e) => {
                return Err(e);
            },
        };
        if self.manifest.serial != filter.serial {
            return Err(Error::SchemaMismatch);
        }
        let filter_hash: Vec<u8> = filter.hash();
        let signing: Vec<u8> = filter.signing_bytes();
        let hash_verified: bool = bytes_eq(manifest_hash.as_slice(), filter_hash.as_slice());
        let mut signatures: Vec<ManifestSignatureVerify> = Vec::new();
        let mut i: usize = 0;
        while i < self.manifest.signatures.len()
            invariant
                i <= self.manifest.signatures.len(),
                signatures.len() == i,
                signing@ == self.data@,
                forall|j: int|
                    0 <= j < i ==> (#[trigger] signatures@[j]).signer@
                        == self.manifest.signatures@[j].signer@ && signatures@[j].verified
                        == accepts(
                        self.manifest.signatures@[j].signer@,
                        self.data@,
                        self.manifest.signatures@[j].signature@,
                    ),
            decreases self.manifest.signatures.len() - i,
        {
            let found = self.manifest.signatures[i].verify(signing.as_slice());
            signatures.push(found);
            i += 1;
        }
        Ok(
            ManifestReport {
                serial: self.manifest.serial,
                hash: self.manifest.hash.clone(),
                hash_verified,
                public_key: key,
                signatures,
            },
        )
    }
}

impl ManifestCommand {
    /// What `run` returns: what the command it holds returns, under the
    /// variant of that command.
    pub open spec fn describes(&self, r: Result<ManifestOutput, Error>) -> bool {
        match (*self, r) {
            (ManifestCommand::Generate(cmd), Ok(ManifestOutput::Generated(g))) => cmd.describes(
                Ok(g),
            ),
            (ManifestCommand::Generate(cmd), Err(e)) => cmd.describes(Err(e)),
            (ManifestCommand::Verify(cmd), Ok(ManifestOutput::Report(report))) => cmd.describes(
                Ok(report),
            ),
            (ManifestCommand::Verify(cmd), Err(e)) => cmd.describes(Err(e)),
            _ => false,
        }
    }

    /// Runs the command it holds: see [`ManifestCommand::describes`].
    pub fn run(&self) -> (r: Result<ManifestOutput, Error>)
        ensures
            self.describes(r),
    {
        match self {
            Self::Generate(cmd) => match cmd.run() {
                Ok(g) => Ok(ManifestOutput::Generated(g)),
                Err(e) => Err(e),
            },
            Self::Verify(cmd) => match cmd.run() {
                Ok(report) => Ok(ManifestOutput::Report(report)),
                Err(e) => Err(e),
            },
        }
    }
}

impl Cmd {
    /// Runs the command it holds: see [`ManifestCommand::describes`].
    pub fn run(&self) -> (r: Result<ManifestOutput, Error>)
        ensures
            self.cmd.describes(r),
    {
        self.cmd.run()
    }
}

} // verus!
