//! Validation failures of the engine. Every error is local, surfaced
//! synchronously to the caller of the failing operation, and never retried
//! by the engine itself.

use vstd::prelude::*;

verus! {

/// The failure modes of registration, proposal and endorsement.
#[derive(Clone, Copy, Debug, PartialEq, Eq, Structural)]
pub enum Error {
    /// Threshold must be 1 or greater.
    MinimumThreshold,
    /// Call doesn't need any (more) approvals.
    NoApprovalsNeeded,
    /// There are too few signatories in the list.
    TooFewSignatories,
    /// There are too many signatories in the list.
    TooManySignatories,
    /// The signatories were provided out of order; they should be ordered.
    SignatoriesOutOfOrder,
    /// The sender was contained in the other signatories; it shouldn't be.
    SenderInSignatories,
    /// Multisig operation not found when attempting to cancel.
    NotFound,
    /// Signer is not part of the approved signatories.
    SignerIsNotApproved,
    /// Dispatch has already happened.
    DispatchHasAlreadyOccured,
    /// Call hash has already been created by a user.
    CallHashAlreadyExists,
}

} // verus!
