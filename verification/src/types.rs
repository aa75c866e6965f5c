//! Core data model: assets, records, nullifiers.
//!
//! Cryptographic objects are carried as plain values. A public key is an
//! opaque 64-bit identifier; a blinding factor is an opaque 64-bit value;
//! an asset code is a 64-bit identifier derived deterministically from a
//! random seed and a description. The bookkeeping the wallet performs
//! over these values is exactly the bookkeeping stated here.

use vstd::prelude::*;
use crate::dict::DictKey;

verus! {

/// The asset code of the native asset.
pub const NATIVE_ASSET_CODE: u64 = 0;

/// Whether a record is frozen (unspendable by its owner) or not.
#[derive(Clone, Copy, Debug, PartialEq, Eq, Structural)]
pub enum FreezeFlag {
    Frozen,
    Unfrozen,
}

impl FreezeFlag {
    /// The flag a freeze (or unfreeze) input must carry so that the
    /// output can carry `self`.
    pub fn flipped(&self) -> (r: FreezeFlag)
        ensures
            r == self.flip_spec(),
    {
        match self {
            FreezeFlag::Frozen => FreezeFlag::Unfrozen,
            FreezeFlag::Unfrozen => FreezeFlag::Frozen,
        }
    }

    pub open spec fn flip_spec(&self) -> FreezeFlag {
        match self {
            FreezeFlag::Frozen => FreezeFlag::Unfrozen,
            FreezeFlag::Unfrozen => FreezeFlag::Frozen,
        }
    }
}

/// Declares who may audit and who may freeze records of an asset, and
/// which fields of a record the audit memo reveals. A key of 0 means
/// the role is unset.
#[derive(Clone, Copy, Debug, PartialEq, Eq, Structural)]
pub struct AssetPolicy {
    pub auditor_pub_key: u64,
    pub freezer_pub_key: u64,
    pub reveal_address: bool,
    pub reveal_amount: bool,
    pub reveal_blind: bool,
}

impl AssetPolicy {
    /// The empty policy: no auditor, no freezer, nothing revealed.
    pub fn unaudited() -> (r: Self)
        ensures
            r == (AssetPolicy {
                auditor_pub_key: 0,
                freezer_pub_key: 0,
                reveal_address: false,
                reveal_amount: false,
                reveal_blind: false,
            }),
    {
        AssetPolicy {
            auditor_pub_key: 0,
            freezer_pub_key: 0,
            reveal_address: false,
            reveal_amount: false,
            reveal_blind: false,
        }
    }

    /// The policy granting `auditor` and `freezer` their roles and
    /// revealing every field to the auditor.
    pub fn reveal_all(auditor: u64, freezer: u64) -> (r: Self)
        ensures
            r == (AssetPolicy {
                auditor_pub_key: auditor,
                freezer_pub_key: freezer,
                reveal_address: true,
                reveal_amount: true,
                reveal_blind: true,
            }),
    {
        AssetPolicy {
            auditor_pub_key: auditor,
            freezer_pub_key: freezer,
            reveal_address: true,
            reveal_amount: true,
            reveal_blind: true,
        }
    }
}

/// An asset: its deterministic code together with its policy.
#[derive(Clone, Copy, Debug, PartialEq, Eq, Structural)]
pub struct AssetDefinition {
    pub code: u64,
    pub policy: AssetPolicy,
}

impl AssetDefinition {
    /// The native asset: the distinguished code, the empty policy.
    pub fn native() -> (r: Self)
        ensures
            r == Self::native_spec(),
    {
        AssetDefinition { code: NATIVE_ASSET_CODE, policy: AssetPolicy::unaudited() }
    }

    pub open spec fn native_spec() -> AssetDefinition {
        AssetDefinition {
            code: NATIVE_ASSET_CODE,
            policy: AssetPolicy {
                auditor_pub_key: 0,
                freezer_pub_key: 0,
                reveal_address: false,
                reveal_amount: false,
                reveal_blind: false,
            },
        }
    }
}

/// Accumulate a description into a 64-bit digest, kept below 2^32 so the
/// arithmetic never overflows.
pub open spec fn description_digest(s: Seq<u8>) -> u64
    decreases s.len(),
{
    if s.len() == 0 {
        0
    } else {
        (((description_digest(s.drop_last()) * 31) + s.last()) % 0x1_0000_0000) as u64
    }
}

/// The deterministic asset code derived from a seed and a description.
pub open spec fn asset_code_spec(seed: u64, desc: Seq<u8>) -> u64 {
    seed ^ description_digest(desc)
}

/// Derive an asset code from a seed and a description.
pub fn derive_asset_code(seed: u64, description: &Vec<u8>) -> (r: u64)
    ensures
        r == asset_code_spec(seed, description@),
{
    let mut digest: u64 = 0;
    let n = description.len();
    for i in 0..n
        invariant
            n == description@.len(),
            digest == description_digest(description@.subrange(0, i as int)),
            digest < 0x1_0000_0000,
    {
        let ghost pre = description@.subrange(0, i as int);
        digest = (digest * 31 + description[i] as u64) % 0x1_0000_0000;
        proof {
            let cur = description@.subrange(0, i + 1);
            assert(cur.drop_last() =~= pre);
            assert(cur.last() == description@[i as int]);
        }
    }
    proof {
        assert(description@.subrange(0, n as int) =~= description@);
    }
    seed ^ digest
}


/// Copy a vector of plain values.
pub fn copy_vec<T: Copy>(v: &Vec<T>) -> (r: Vec<T>)
    ensures
        r@ == v@,
{
    let mut r: Vec<T> = Vec::new();
    let n = v.len();
    for i in 0..n
        invariant
            n == v@.len(),
            r@ == v@.subrange(0, i as int),
    {
        r.push(v[i]);
        proof {
            assert(v@.subrange(0, i + 1) =~= v@.subrange(0, i as int).push(v@[i as int]));
        }
    }
    proof {
        assert(v@.subrange(0, n as int) =~= v@);
    }
    r
}

/// The plaintext contents of a ledger record.
#[derive(Clone, Copy, Debug, PartialEq, Eq, Structural)]
pub struct RecordOpening {
    pub amount: u64,
    pub asset_def: AssetDefinition,
    pub pub_key: u64,
    pub freeze_flag: FreezeFlag,
    pub blind: u64,
}

/// The tag revealed when a record is spent. It is derivable both by the
/// record's owner and by the asset's freezer, and by nobody else; here
/// it is the triple that either party would feed the derivation.
#[derive(Clone, Copy, Debug, PartialEq, Eq, Structural, Hash)]
pub struct Nullifier {
    pub owner_pub_key: u64,
    pub freezer_pub_key: u64,
    pub uid: u64,
}

impl DictKey for Nullifier {
    fn key_eq(&self, other: &Self) -> (r: bool) {
        *self == *other
    }
}

/// The nullifier of the record `ro` sitting at leaf `uid`.
pub open spec fn nullify_spec(ro: RecordOpening, uid: u64) -> Nullifier {
    Nullifier {
        owner_pub_key: ro.pub_key,
        freezer_pub_key: ro.asset_def.policy.freezer_pub_key,
        uid: uid,
    }
}

pub fn nullify(ro: &RecordOpening, uid: u64) -> (r: Nullifier)
    ensures
        r == nullify_spec(*ro, uid),
{
    Nullifier {
        owner_pub_key: ro.pub_key,
        freezer_pub_key: ro.asset_def.policy.freezer_pub_key,
        uid: uid,
    }
}

/// A record's slot in the secondary index: asset code, owner, freeze
/// status.
#[derive(Clone, Copy, Debug, PartialEq, Eq, Structural)]
pub struct RecordKey {
    pub asset_code: u64,
    pub owner: u64,
    pub frozen: FreezeFlag,
}

impl DictKey for RecordKey {
    fn key_eq(&self, other: &Self) -> (r: bool) {
        *self == *other
    }
}

pub open spec fn record_key_spec(ro: RecordOpening) -> RecordKey {
    RecordKey { asset_code: ro.asset_def.code, owner: ro.pub_key, frozen: ro.freeze_flag }
}

pub fn record_key_of(ro: &RecordOpening) -> (r: RecordKey)
    ensures
        r == record_key_spec(*ro),
{
    RecordKey { asset_code: ro.asset_def.code, owner: ro.pub_key, frozen: ro.freeze_flag }
}

/// The commitment to a record that the ledger stores. The commitment
/// binds the whole opening; hiding is a property of the cryptography,
/// not of this model, so the opening sits inside and equality of
/// commitments is equality of openings.
#[derive(Clone, Copy, Debug, PartialEq, Eq, Structural)]
pub struct RecordCommitment {
    pub ro: RecordOpening,
}

/// An encrypted note addressed to a record's owner; only the owner's key
/// decrypts it.
#[derive(Clone, Copy, Debug, PartialEq, Eq, Structural)]
pub struct ReceiverMemo {
    pub ro: RecordOpening,
}

impl ReceiverMemo {
    pub fn from_ro(ro: &RecordOpening) -> (r: Self)
        ensures
            r.ro == *ro,
    {
        ReceiverMemo { ro: *ro }
    }

    /// Decrypt under `key_pair`, checking the memo against the on-ledger
    /// commitment. Succeeds exactly when the memo is addressed to the
    /// key and matches the commitment.
    pub fn decrypt(&self, key_pair: u64, comm: &RecordCommitment) -> (r: Option<RecordOpening>)
        ensures
            r == if self.ro.pub_key == key_pair && self.ro == comm.ro {
                Some(self.ro)
            } else {
                None::<RecordOpening>
            },
    {
        if self.ro.pub_key == key_pair && self.ro == comm.ro {
            Some(self.ro)
        } else {
            None
        }
    }
}

} // verus!
