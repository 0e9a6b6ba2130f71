//! The commands on filters and on manifests, from values in memory to values
//! in memory.

pub mod filter;
pub mod manifest;
