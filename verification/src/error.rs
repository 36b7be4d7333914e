//! Error taxonomy of the whitelist operation.

use vstd::prelude::*;

verus! {

/// Why a whitelist batch was rejected. Every failure aborts the whole
/// operation before any record is persisted; there is no partial success.
#[derive(Clone, Copy, Debug, PartialEq, Eq, Structural)]
pub enum WhitelistError {
    /// Batch shape violated: empty address list, or the nonce or slot list
    /// length differs from the address list length.
    InvalidInput,
    /// A supplied storage slot does not equal the address re-derived from
    /// (participant, auction, nonce), or that derivation is degenerate.
    /// Carries the first offending batch index.
    InvalidDerivedAddress(usize),
    /// The caller is not the auction's owner.
    Unauthorized,
    /// The atomic batch commit could not be durably applied after all
    /// validation passed. The in-memory store of this crate never fails to
    /// commit; the variant belongs to the host's persistence boundary.
    PersistenceFailed,
}

} // verus!
