//! Client-side wallet core for a privacy-preserving asset ledger.
//!
//! The wallet keeps a local mirror of the validator state, tracks the
//! records it owns, audits, or can freeze, and assembles transfer, mint
//! and freeze transactions against a backend. Cryptographic objects
//! (keys, blinding factors, proofs) are carried as opaque plain values;
//! the bookkeeping over them is what this crate states and proves.

use vstd::prelude::*;

pub mod dict;
pub mod types;
pub mod amount_index;
pub mod records;
pub mod key_set;
pub mod txn;
pub mod validator;
pub mod rng;
pub mod errors;
pub mod wallet;
pub mod store;
pub mod ledger;
pub mod consensus;

verus! {

/// Number of past record-tree roots a validator accepts; a transaction
/// whose proofs were built against an older root can no longer commit.
pub const RECORD_ROOT_HISTORY_SIZE: u64 = 5;

/// How long (in validator time steps) a record used as an input to an
/// unconfirmed transaction is kept on hold before the transaction is
/// considered timed out. Equals the root history depth: that is the age
/// at which the transaction's proofs cease to verify.
pub const RECORD_HOLD_TIME: u64 = RECORD_ROOT_HISTORY_SIZE;

} // verus!
