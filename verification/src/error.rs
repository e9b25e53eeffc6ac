//! Error conditions of the build pipeline and of store lookups. Every
//! condition is fatal to its stage; none is retried.

use vstd::prelude::*;

verus! {

/// Why a build stage stopped. A partially built dataset is worse than
/// none, so every condition aborts the whole build.
#[derive(Clone, Copy, PartialEq, Eq, Structural, Debug)]
pub enum BuildError {
    /// A source file could not be fetched or read.
    SourceUnavailable,
    /// A row of a source file could not be decoded: a stray character in a
    /// number, a missing field, or a range pair without its closing row.
    MalformedRecord,
    /// The keyed store refused a statement.
    StoreFailure,
    /// The finished store could not be packaged.
    PackagingFailure,
}

/// Why a lookup against the finished store returned nothing usable.
#[derive(Clone, Copy, PartialEq, Eq, Structural, Debug)]
pub enum LookupError {
    /// The store could not be queried.
    QueryFailed,
    /// A row carried a category code outside the closed set.
    UnknownCategory,
    /// A row carried a codepoint that is no Unicode scalar value.
    InvalidCodepoint,
}

} // verus!
