//! The failure conditions that store operations surface to their caller.

use vstd::prelude::*;

verus! {

/// Why a store operation could not be carried out.
///
/// `NotFound`, `InvalidIdentifier` and `PreconditionViolated` are expected,
/// recoverable conditions; `InvariantViolation` reports that carrying the
/// operation out would have broken the store's internal consistency, and the
/// operation was aborted with the store unchanged.
#[derive(Clone, Copy, Debug, PartialEq, Eq, Structural)]
pub enum StoreError {
    /// A track, event or song referenced by id does not exist.
    NotFound,
    /// Malformed identifier text failed to parse.
    InvalidIdentifier,
    /// An operation that needs an active song was called before one was set.
    PreconditionViolated,
    /// Completing the operation would have violated an internal invariant.
    InvariantViolation,
}

} // verus!
