use vstd::prelude::*;

verus! {

/// The terminal failures a registration can surface. Every step of a
/// registration fails fast: the first error aborts the whole operation
/// and the on-disk log is left untouched.
#[derive(Debug)]
pub enum LogError {
    /// The compiled artifact for the contract name is missing locally.
    ArtifactNotFound,
    /// The candidate address is already present somewhere in history;
    /// carries that address.
    DuplicateContract(String),
    /// An array or fixed-array typed constructor argument was
    /// encountered; serializing those is a declared non-goal.
    UnsupportedAbiType,
    /// The on-disk log did not parse as the expected shape.
    MalformedLogFile,
    /// The external documentation generator is not installed.
    DocGeneratorMissing,
    /// The ABI decoder rejected the raw constructor argument bytes, or
    /// handed back values whose shape does not match the parameter
    /// specification.
    DecodeFailed,
}

} // verus!
