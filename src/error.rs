//! Why an operation was rejected.
use vstd::prelude::*;

verus! {

/// The error kinds of rejected operations. A rejected operation changes
/// nothing.
#[derive(Debug, Clone, Copy, PartialEq, Eq, Structural)]
pub enum Error {
    /// The contract was configured already.
    AlreadyInitialized,
    /// The caller is not the admin, or no admin is set.
    Unauthorized,
    /// The asset is registered already, or named twice in one batch.
    AssetAlreadyPresented,
    /// The supplied configuration version is not the current one plus one.
    InvalidConfigVersion,
    /// Registering would take the registry past its capacity.
    AssetLimitExceeded,
    /// A price update does not hold one price per registered asset.
    InvalidUpdateLength,
    /// A price update holds a negative price.
    InvalidPriceValue,
    /// A price update's timestamp is zero, off the resolution grid, or ahead
    /// of the ledger clock.
    InvalidTimestamp,
}

} // verus!
