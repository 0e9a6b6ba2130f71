//! A signed denylist for a peer-to-peer network.
//!
//! Denied keys and denied edges between keys are compressed into a binary fuse
//! filter with 32-bit fingerprints. The filter has a fixed binary form. Its
//! signing bytes, the binary form without the signature, are hashed and
//! signed by a set of trusted signers; the signatures are collected in a
//! manifest and combined into one aggregate signature, which is stamped into
//! the filter and verifies under the composite key of the signer set.
//!
//! - [`identity`], [`hash`], [`items`]: keys, edges, and the 64-bit hashes
//!   that stand for them.
//! - [`layout`], [`peel`], [`assign`], [`filter`]: the filter, its
//!   construction and its membership query.
//! - [`codec`]: the binary form, the signing bytes and the content hash.
//! - [`signature`], [`multisig`], [`manifest`]: signatures of single signers,
//!   composite keys and aggregate signatures, and the manifest.
//! - [`cmd`]: the commands on filters and manifests.
//! - [`laws`]: what holds of the library as a whole.
//! - [`digest`], [`encoding`]: SHA-256 and base64, taken from outside.

pub mod assign;
pub mod cmd;
pub mod codec;
pub mod digest;
pub mod encoding;
pub mod error;
pub mod filter;
pub mod hash;
pub mod identity;
pub mod items;
pub mod laws;
pub mod layout;
pub mod manifest;
pub mod multisig;
pub mod peel;
pub mod signature;

pub use error::Error;
pub use filter::Filter;
pub use identity::{Descriptor, Edge, Identity};
pub use manifest::{Manifest, ManifestSignature, ManifestSignatureVerify};
pub use multisig::PublicKeyManifest;
