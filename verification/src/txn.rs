//! Transactions on the wire: notes, nullifier non-membership proofs,
//! blocks, ledger events, and audit memos.

use vstd::prelude::*;
use crate::types::{Nullifier, ReceiverMemo, RecordCommitment};

verus! {

/// A non-membership proof for a nullifier against the validators'
/// sparse set. The proof speaks about one version of the set; it is
/// current only for that version.
#[derive(Clone, Copy, Debug, PartialEq, Eq, Structural)]
pub struct NulProof {
    pub version: u64,
}

#[derive(Clone, Copy, Debug, PartialEq, Eq, Structural)]
pub enum NoteKind {
    Transfer,
    Mint,
    Freeze,
}

/// What the auditor key reveals of one output, field by field as the
/// asset policy permits.
#[derive(Clone, Copy, Debug, PartialEq, Eq, Structural)]
pub struct AuditData {
    pub asset_code: u64,
    pub user_address: Option<u64>,
    pub amount: Option<u64>,
    pub blind: Option<u64>,
}

/// The per-transfer encrypted payload decryptable only with the asset's
/// auditor key.
pub struct AuditMemo {
    pub auditor_pub_key: u64,
    pub asset_code: u64,
    pub outputs: Vec<AuditData>,
}

/// A proof-carrying transaction note. The zero-knowledge proof itself
/// is out of scope; what the wallet reads of a note is its kind, its
/// input nullifiers (fee input first), its output commitments, the
/// record-tree root its proof binds, the audit memo, and the key that
/// verifies its receiver-memo signature.
pub struct TransactionNote {
    pub kind: NoteKind,
    pub nullifiers: Vec<Nullifier>,
    pub output_commitments: Vec<RecordCommitment>,
    pub audit_memo: Option<AuditMemo>,
    pub record_root: u64,
    pub memo_verif_key: u64,
}

impl TransactionNote {
    pub fn output_len(&self) -> (r: usize)
        ensures
            r == self.output_commitments@.len(),
    {
        self.output_commitments.len()
    }
}

/// A signature over a list of receiver memos, bound to the signing key
/// a note committed to.
#[derive(Clone, Copy, Debug, PartialEq, Eq, Structural)]
pub struct MemoSignature {
    pub key: u64,
    pub memo_count: usize,
}

/// A note together with a non-membership proof for each nullifier.
pub struct ElaboratedTransaction {
    pub txn: TransactionNote,
    pub proofs: Vec<NulProof>,
}

pub struct ElaboratedBlock {
    pub txns: Vec<ElaboratedTransaction>,
}

/// Why a validator refused a block.
#[derive(Clone, Copy, Debug, PartialEq, Eq, Structural)]
pub enum ValidationError {
    /// A nullifier proof is stale or does not verify.
    BadNullifierProof,
    /// A note's proof binds a record root outside the history window.
    BadMerkleRoot,
    /// An input nullifier has already been published.
    NullifierAlreadyExists,
    /// The record tree cannot take the block's outputs.
    LedgerFull,
    /// A cryptographic check failed (a memo signature, a note proof).
    CryptoError,
}

/// Events the backend delivers to the wallet, in arrival order.
pub enum LedgerEvent {
    /// A block the validators accepted, with the receiver memos for
    /// each transaction's outputs.
    Commit(ElaboratedBlock, Vec<Vec<ReceiverMemo>>),
    /// A block the validators refused.
    Reject(ElaboratedBlock, ValidationError),
}

} // verus!
