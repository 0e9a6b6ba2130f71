//! Commands on filters.

use crate::codec::{decode, encode, signing_bytes};
use crate::error::Error;
use crate::filter::{Filter, FilterView};
use crate::identity::{copy_bytes, edge_hash, key_hash, Identity};
use crate::manifest::{signable, signature_views, signed, Manifest};
use crate::multisig::{composite_key, endorsed, PublicKeyManifest};
use vstd::prelude::*;

verus! {

/// Whether a key or an edge is in a filter.
#[derive(Clone, Debug, PartialEq, Eq)]
pub struct Membership {
    pub address: Identity,
    pub in_filter: bool,
}

/// Whether a filter verified under a composite key.
#[derive(Clone, Debug, PartialEq, Eq)]
pub struct Verified {
    pub address: Identity,
    pub verified: bool,
}

/// A signed filter in its binary form, verified under the composite key of
/// its signers.
#[derive(Clone, Debug, PartialEq, Eq)]
pub struct Generated {
    pub filter: Vec<u8>,
    pub address: Identity,
    pub verified: bool,
}

/// What a filter holds besides its fingerprints, and their number.
#[derive(Clone, Debug, PartialEq, Eq)]
pub struct FilterInfo {
    pub serial: u32,
    pub signature: Vec<u8>,
    pub fingerprints: usize,
}

/// The result of a command on filters.
#[derive(Clone, Debug, PartialEq, Eq)]
pub enum FilterOutput {
    Generated(Generated),
    Membership(Membership),
    Verified(Verified),
    Info(FilterInfo),
}

/// A command on filters.
#[derive(Clone, Debug, PartialEq, Eq)]
pub struct Cmd {
    pub cmd: FilterCommand,
}

/// Commands on filters.
#[derive(Clone, Debug, PartialEq, Eq)]
pub enum FilterCommand {
    Generate(Generate),
    Contains(Contains),
    Verify(Verify),
    Info(Info),
}

/// Checks whether a filter, given in its binary form, contains a key, or the
/// edge from the key to a target.
#[derive(Clone, Debug, PartialEq, Eq)]
pub struct Contains {
    pub input: Vec<u8>,
    pub key: Identity,
    pub target: Option<Identity>,
}

/// Verifies a filter, given in its binary form, against the composite key of a
/// signer set.
#[derive(Clone, Debug, PartialEq, Eq)]
pub struct Verify {
    pub input: Vec<u8>,
    pub key: PublicKeyManifest,
}

/// Makes the signed filter from the signing bytes, the signer set and the
/// manifest with the signers' signatures.
#[derive(Clone, Debug, PartialEq, Eq)]
pub struct Generate {
    pub data: Vec<u8>,
    pub key: PublicKeyManifest,
    pub manifest: Manifest,
}

/// Describes a filter given in its binary form.
#[derive(Clone, Debug, PartialEq, Eq)]
pub struct Info {
    pub input: Vec<u8>,
}

/// The record of a verification under the composite key `public_key`.
pub fn verified(public_key: Identity, outcome: bool) -> (r: Verified)
    ensures
        r.address == public_key,
        r.verified == outcome,
{
    Verified { address: public_key, verified: outcome }
}

impl Contains {
    /// What `run` returns: `MalformedInput` where the input is not the binary
    /// form of a filter; else the key, and whether the filter reports the key,
    /// or the edge from the key to the target where there is one, as denied.
    pub open spec fn describes(&self, r: Result<Membership, Error>) -> bool {
        match decode(self.input@) {
            None => r matches Err(e) && e == Error::MalformedInput,
            Some(f) => r matches Ok(m) && m.address@ == self.key@ && m.in_filter == f.holds(
                match self.target {
                    Some(target) => edge_hash(self.key@, target@),
                    None => key_hash(self.key@),
                },
            ),
        }
    }

    /// Runs the command: see [`Contains::describes`].
    pub fn run(&self) -> (r: Result<Membership, Error>)
        ensures
            self.describes(r),
    {
        let filter: Filter = match Filter::from_bytes(self.input.as_slice()) {
            Ok(filter) => filter,
            Err(e) => {
                return Err(e);
            },
        };
        let in_filter: bool = match &self.target {
            Some(target) => filter.contains_edge(&self.key, target),
            None => filter.contains(&self.key),
        };
        Ok(Membership { address: self.key.duplicate(), in_filter })
    }
}

impl Verify {
    /// What `run` returns: `MalformedInput` where the input is not the binary
    /// form of a filter or the signer set is not well formed;
    /// `VerificationFailure` where the filter's signature does not verify
    /// under the composite key of the signer set; else that key, verified.
    pub open spec fn describes(&self, r: Result<Verified, Error>) -> bool {
        match decode(self.input@) {
            None => r matches Err(e) && e == Error::MalformedInput,
            Some(f) => if !self.key@.wf() {
                r matches Err(e) && e == Error::MalformedInput
            } else if !endorsed(composite_key(self.key@), signing_bytes(f), f.signature) {
                r matches Err(e) && e == Error::VerificationFailure
            } else {
                r matches Ok(v) && v.address@ == composite_key(self.key@) && v.verified
            },
        }
    }

    /// Runs the command: see [`Verify::describes`].
    pub fn run(&self) -> (r: Result<Verified, Error>)
        ensures
            self.describes(r),
    {
        let filter: Filter = match Filter::from_bytes(self.input.as_slice()) {
            Ok(filter) => filter,
            Err(e) => {
                return Err(e);
            },
        };
        let key: Identity = match self.key.derive_composite() {
            Ok(key) => key,
            Err(e) => {
                return Err(e);
            },
        };
        match filter.verify(&key) {
            Ok(_) => Ok(verified(key, true)),
            Err(e) => Err(e),
        }
    }
}

impl Generate {
    /// What `run` returns. `MalformedInput` where the signer set is not well
    /// formed, where the data is not the binary form of a filter without a
    /// signature, and where the manifest gives no aggregate signature for the
    /// signer set. `SchemaMismatch` where the manifest and the filter disagree
    /// on the serial number. `VerificationFailure` where the aggregate
    /// signature does not verify under the composite key of the signer set:
    /// no filter is handed out that does not verify. Else the binary form of
    /// the filter with the aggregate signature stamped in, and the composite
    /// key, verified.
    pub open spec fn describes(&self, r: Result<Generated, Error>) -> bool {
        let sigs = signature_views(self.manifest.signatures@);
        if !self.key@.wf() {
            r matches Err(e) && e == Error::MalformedInput
        } else {
            match decode(self.data@) {
                None => r matches Err(e) && e == Error::MalformedInput,
                Some(f) => if f.signature.len() > 0 || !signable(sigs, self.key@) {
                    r matches Err(e) && e == Error::MalformedInput
                } else if self.manifest.serial != f.serial {
                    r matches Err(e) && e == Error::SchemaMismatch
                } else if !endorsed(
                    composite_key(self.key@),
                    signing_bytes(f),
                    signed(sigs, self.key@),
                ) {
                    r matches Err(e) && e == Error::VerificationFailure
                } else {
                    &&& r matches Ok(g)
                    &&& g.address@ == composite_key(self.key@)
                    &&& g.filter@ == encode(
                        FilterView { signature: signed(sigs, self.key@), ..f },
                    )
                    &&& g.verified
                },
            }
        }
    }

    /// Runs the command: see [`Generate::describes`].
    pub fn run(&self) -> (r: Result<Generated, Error>)
        ensures
            self.describes(r),
    {
        let key: Identity = match self.key.derive_composite() {
            Ok(key) => key,
            Err(e) => {
                return Err(e);
            },
        };
        let mut filter: Filter = match Filter::from_signing_bytes(self.data.as_slice()) {
            Ok(filter) => filter,
            Err(e) => {
                return Err(e);
            },
        };
        let signature: Vec<u8> = match self.manifest.sign(&self.key) {
            Ok(signature) => signature,
            Err(e) => {
                return Err(e);
            },
        };
        match filter.stamp_signature(signature, self.manifest.serial) {
            Ok(_) => {},
            Err(e) => {
                return Err(e);
            },
        }
        match filter.verify(&key) {
            Ok(_) => {},
            Err(e) => {
                return Err(e);
            },
        }
        let bytes: Vec<u8> = filter.to_bytes();
        Ok(Generated { filter: bytes, address: key, verified: true })
    }
}

impl Info {
    /// What `run` returns: `MalformedInput` where the input is not the binary
    /// form of a filter; else the filter's serial number, its signature and
    /// the number of its fingerprints.
    pub open spec fn describes(&self, r: Result<FilterInfo, Error>) -> bool {
        match decode(self.input@) {
            None => r matches Err(e) && e == Error::MalformedInput,
            Some(f) => r matches Ok(info) && info.serial == f.serial && info.signature@
                == f.signature && info.fingerprints == f.fingerprints.len(),
        }
    }

    /// Runs the command: see [`Info::describes`].
    pub fn run(&self) -> (r: Result<FilterInfo, Error>)
        ensures
            self.describes(r),
    {
        match Filter::from_bytes(self.input.as_slice()) {
            Ok(filter) => Ok(
                FilterInfo {
                    serial: filter.serial,
                    signature: copy_bytes(filter.signature.as_slice()),
                    fingerprints: filter.fingerprints.len(),
                },
            ),
            Err(e) => Err(e),
        }
    }
}

impl FilterCommand {
    /// What `run` returns: what the command it holds returns, under the
    /// variant of that command.
    pub open spec fn describes(&self, r: Result<FilterOutput, Error>) -> bool {
        match (*self, r) {
            (FilterCommand::Generate(cmd), Ok(FilterOutput::Generated(g))) => cmd.describes(Ok(g)),
            (FilterCommand::Generate(cmd), Err(e)) => cmd.describes(Err(e)),
            (FilterCommand::Contains(cmd), Ok(FilterOutput::Membership(m))) => cmd.describes(Ok(m)),
            (FilterCommand::Contains(cmd), Err(e)) => cmd.describes(Err(e)),
            (FilterCommand::Verify(cmd), Ok(FilterOutput::Verified(v))) => cmd.describes(Ok(v)),
            (FilterCommand::Verify(cmd), Err(e)) => cmd.describes(Err(e)),
            (FilterCommand::Info(cmd), Ok(FilterOutput::Info(i))) => cmd.describes(Ok(i)),
            (FilterCommand::Info(cmd), Err(e)) => cmd.describes(Err(e)),
            _ => false,
        }
    }

    /// Runs the command it holds: see [`FilterCommand::describes`].
    pub fn run(&self) -> (r: Result<FilterOutput, Error>)
        ensures
            self.describes(r),
    {
        match self {
            Self::Generate(cmd) => match cmd.run() {
                Ok(g) => Ok(FilterOutput::Generated(g)),
                Err(e) => Err(e),
            },
            Self::Contains(cmd) => match cmd.run() {
                Ok(m) => Ok(FilterOutput::Membership(m)),
                Err(e) => Err(e),
            },
            Self::Verify(cmd) => match cmd.run() {
                Ok(v) => Ok(FilterOutput::Verified(v)),
                Err(e) => Err(e),
            },
            Self::Info(cmd) => match cmd.run() {
                Ok(i) => Ok(FilterOutput::Info(i)),
                Err(e) => Err(e),
            },
        }
    }
}

impl Cmd {
    /// Runs the command it holds: see [`FilterCommand::describes`].
    pub fn run(&self) -> (r: Result<FilterOutput, Error>)
        ensures
            self.cmd.describes(r),
    {
        self.cmd.run()
    }
}

} // verus!
