//! Errors the wallet reports to its caller.

use vstd::prelude::*;
use crate::txn::ValidationError;
use crate::types::Nullifier;

verus! {

#[derive(Clone, Copy, Debug, PartialEq, Eq, Structural)]
pub enum WalletError {
    /// Not enough funds: `actual` is what could be gathered.
    InsufficientBalance { asset: u64, required: u64, actual: u64 },
    /// Records exist but cannot be combined within the allowed input
    /// count; `suggested_amount` is a reachable smaller amount.
    Fragmentation { asset: u64, amount: u64, suggested_amount: u64, max_records: usize },
    /// No proving key supports this output count.
    TooManyOutputs { asset: u64, max_records: usize, num_receivers: usize, num_change_records: usize },
    /// Mint target is not in the defined-asset table.
    UndefinedAsset { asset: u64 },
    /// A locally re-validated block did not verify.
    InvalidBlock { val_err: ValidationError },
    /// A proof refresh found the nullifier already spent.
    NullifierAlreadyPublished { nullifier: Nullifier },
    /// A failure in the proof layer; here, a proving key that would
    /// need dummy inputs, which the wallet rejects rather than pads.
    CryptoError,
    /// The backend cannot resolve this address.
    InvalidAddress { address: u64 },
    /// The caller does not hold the asset's auditor role.
    InvalidAuditorKey { my_key: u64, asset_key: u64 },
    /// The caller does not hold the asset's freezer role.
    InvalidFreezerKey { my_key: u64, asset_key: u64 },
}

} // verus!
