//! Error kinds of the library.

use vstd::prelude::*;

verus! {

/// Failure of one call to the registrar.
#[derive(Clone, Copy, Debug, PartialEq, Eq, Structural)]
pub enum ClientError {
    /// The request did not complete (network failure, timeout, refused).
    Transport,
    /// The response body did not have the expected shape.
    Decode,
}

/// Why one reconciliation target was abandoned.
#[derive(Clone, Copy, Debug, PartialEq, Eq, Structural)]
pub enum TargetError {
    /// No domain of the registrar account is a suffix of the configured domain.
    DomainNotFound,
    /// Two registrar domains of the same, greatest length are suffixes of the
    /// configured domain.
    AmbiguousDomain,
    /// The name does not end with `.` and the registrar domain.
    SuffixMismatch,
    /// A call to the registrar failed.
    Client(ClientError),
}

} // verus!
