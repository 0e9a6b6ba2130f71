use vstd::prelude::*;

verus! {

/// The ways in which an operation of this library fails.
#[derive(Clone, Copy, Debug, PartialEq, Eq, Structural)]
pub enum Error {
    /// A byte stream is truncated, or a length in it is inconsistent.
    MalformedInput,
    /// No attempt up to the retry ceiling placed every item of a filter.
    ConstructionFailure,
    /// A hash or a signature does not match.
    VerificationFailure,
    /// A manifest and the filter it accompanies disagree on the serial number.
    SchemaMismatch,
}

} // verus!
