//! The wallet state engine: event handling, record selection,
//! transaction assembly, fee management, auditing and freezing.

use vstd::prelude::*;
use crate::dict::{Dict, DictKey};
use crate::errors::WalletError;
use crate::key_set::{KeySet, KeySize, ProverKeySet};
use crate::records::{amounts_sum, RecordDatabase, RecordInfo};
use crate::rng::rng_next;
use crate::txn::{
    AuditData, AuditMemo, ElaboratedBlock, ElaboratedTransaction, LedgerEvent, MemoSignature,
    NoteKind, NulProof, TransactionNote, ValidationError,
};
use crate::types::{
    derive_asset_code, nullify, nullify_spec, record_key_of, record_key_spec, AssetDefinition,
    AssetPolicy, FreezeFlag, Nullifier, ReceiverMemo, RecordCommitment, RecordKey, RecordOpening,
    NATIVE_ASSET_CODE,
};
use crate::validator::{SetMirror, ValidatorState};
use crate::RECORD_HOLD_TIME;

verus! {

/// An asset this wallet defined and may mint.
pub struct DefinedAsset {
    pub definition: AssetDefinition,
    pub seed: u64,
    pub description: Vec<u8>,
}

/// An in-flight transaction, keyed by its fee nullifier, holding what
/// the wallet needs if it commits, is rejected, or times out.
pub struct PendingTransaction {
    pub nullifiers: Vec<Nullifier>,
    pub receiver_memos: Vec<ReceiverMemo>,
    pub signature: MemoSignature,
    pub freeze_outputs: Vec<RecordOpening>,
    pub timeout: u64,
}

/// A built transaction, ready to hand to the backend for submission.
pub struct TransactionBundle {
    pub txn: ElaboratedTransaction,
    pub memos: Vec<ReceiverMemo>,
    pub sig: MemoSignature,
}

/// The session around the wallet state: the user's key pair and the
/// backend's address directory as the wallet knows it.
pub struct WalletSession {
    pub key_pair: u64,
    pub address_book: Dict<u64, u64>,
}

impl WalletSession {
    pub open spec fn wf(&self) -> bool {
        self.address_book.wf()
    }

    /// Resolve an address through the backend's directory.
    pub fn get_public_key(&self, address: u64) -> (r: Result<u64, WalletError>)
        requires
            self.wf(),
        ensures
            match r {
                Ok(k) => self.address_book@.contains_key(address) && k
                    == self.address_book@[address],
                Err(e) => !self.address_book@.contains_key(address) && e == (
                WalletError::InvalidAddress { address }),
            },
    {
        match self.address_book.get(&address) {
            Some(k) => Ok(*k),
            None => Err(WalletError::InvalidAddress { address }),
        }
    }
}

pub struct WalletState {
    pub rng: rand_chacha::ChaCha20Rng,
    /// Sequence number of the last event processed.
    pub now: u64,
    /// Local mirror of the validators, so blocks from the wire need
    /// not be trusted.
    pub validator: ValidatorState,
    pub proving_keys: ProverKeySet,
    /// All records we care about: owned, audited, freezable.
    pub records: RecordDatabase,
    pub auditor_key_pair: u64,
    /// Assets we can audit, by code.
    pub auditable_assets: Dict<u64, AssetDefinition>,
    pub freezer_key_pair: u64,
    /// Sparse spent-nullifier set mirrored from the validators.
    pub nullifiers: SetMirror,
    /// Assets we defined and may mint, by code.
    pub defined_assets: Dict<u64, DefinedAsset>,
    /// Unconfirmed transactions, by fee nullifier.
    pub pending_txns: Dict<Nullifier, PendingTransaction>,
    /// Fee nullifiers of transactions expiring at each validator time.
    pub expiring_txns: Dict<u64, Vec<Nullifier>>,
}

/// No nullifier appears in both lists.
pub open spec fn nul_lists_disjoint(a: Seq<Nullifier>, b: Seq<Nullifier>) -> bool {
    forall|i: int, j: int|
        0 <= i < a.len() && 0 <= j < b.len() ==> #[trigger] a[i] != #[trigger] b[j]
}

impl WalletState {
    /// Is `n` listed in the expiry bucket for time `t`?
    pub open spec fn expiring_has(&self, t: u64, n: Nullifier) -> bool {
        self.expiring_txns@.contains_key(t) && exists|i: int|
            0 <= i < self.expiring_txns@[t]@.len() && self.expiring_txns@[t]@[i] == n
    }

    /// What holds of one pending transaction: the fee nullifier keys
    /// it, its timeout has not passed, its inputs are distinct records
    /// that were live when it was submitted, every one of its input
    /// records still present is on hold until exactly its timeout, and
    /// the expiry index lists it under its timeout.
    pub open spec fn pending_ok(&self, n: Nullifier, pt: PendingTransaction) -> bool {
        &&& pt.nullifiers@.len() > 0
        &&& pt.nullifiers@[0] == n
        &&& pt.timeout > self.validator.prev_commit_time
        &&& forall|i: int, j: int|
            0 <= i < j < pt.nullifiers@.len() ==> pt.nullifiers@[i] != pt.nullifiers@[j]
        &&& forall|i: int|
            0 <= i < pt.nullifiers@.len() ==> (#[trigger] pt.nullifiers@[i]).uid
                < self.validator.record_count
        &&& forall|i: int|
            0 <= i < pt.nullifiers@.len() ==> (self.records.nuls().contains_key(
                #[trigger] pt.nullifiers@[i],
            ) ==> self.records.recs()[pt.nullifiers@[i].uid].hold_until == Some(pt.timeout))
        &&& self.expiring_has(pt.timeout, n)
    }

    pub open spec fn pending_wf(&self) -> bool {
        forall|n: Nullifier| #[trigger]
            self.pending_txns@.contains_key(n) ==> self.pending_ok(n, self.pending_txns@[n])
    }

    /// The expiry index lists only pending fee nullifiers, each under
    /// its own timeout, and no bucket lists one twice.
    pub open spec fn expiring_wf(&self) -> bool {
        forall|t: u64| #[trigger]
            self.expiring_txns@.contains_key(t) ==> (forall|i: int|
                0 <= i < self.expiring_txns@[t]@.len() ==> self.pending_txns@.contains_key(
                    #[trigger] self.expiring_txns@[t]@[i],
                ) && self.pending_txns@[self.expiring_txns@[t]@[i]].timeout == t) && (forall|
                i: int,
                j: int,
            |
                0 <= i < j < self.expiring_txns@[t]@.len() ==> self.expiring_txns@[t]@[i]
                    != self.expiring_txns@[t]@[j])
    }

    /// Distinct pending transactions never share an input record.
    pub open spec fn pending_disjoint(&self) -> bool {
        forall|n1: Nullifier, n2: Nullifier|
            #[trigger] self.pending_txns@.contains_key(n1) && #[trigger] self.pending_txns@.contains_key(
                n2,
            ) && n1 != n2 ==> nul_lists_disjoint(
                self.pending_txns@[n1].nullifiers@,
                self.pending_txns@[n2].nullifiers@,
            )
    }

    /// Every record's uid was assigned by the mirrored validator.
    pub open spec fn uids_fresh(&self) -> bool {
        forall|u: u64| #[trigger]
            self.records.recs().contains_key(u) ==> u < self.validator.record_count
    }

    /// Every record's leaf is remembered, so a membership witness for
    /// any of our records can be produced.
    pub open spec fn uids_remembered(&self) -> bool {
        forall|u: u64| #[trigger]
            self.records.recs().contains_key(u) ==> self.validator.remembered@.contains_key(u)
    }

    pub open spec fn wf(&self) -> bool {
        &&& self.records.wf()
        &&& self.validator.wf()
        &&& self.proving_keys.wf()
        &&& self.nullifiers.wf()
        &&& self.nullifiers.version_spec() <= u64::MAX
        &&& self.pending_txns.wf()
        &&& self.expiring_txns.wf()
        &&& self.auditable_assets.wf()
        &&& self.auditable_keyed()
        &&& self.defined_assets.wf()
        &&& self.uids_fresh()
        &&& self.uids_remembered()
        &&& self.pending_wf()
        &&& self.expiring_wf()
        &&& self.pending_disjoint()
    }

    /// The auditable registry is keyed by each definition's own code.
    pub open spec fn auditable_keyed(&self) -> bool {
        forall|c: u64| #[trigger]
            self.auditable_assets@.contains_key(c) ==> self.auditable_assets@[c].code == c
    }

    pub fn pub_key(&self, session: &WalletSession) -> (r: u64)
        ensures
            r == session.key_pair,
    {
        session.key_pair
    }

    /// The spendable sum for one (asset, owner, freeze status) slot:
    /// the amounts of its usable records, clamped to the machine word.
    pub open spec fn spendable_spec(&self, k: RecordKey) -> int {
        amounts_sum(
            self.records.cands(k, self.validator.prev_commit_time),
            self.records.cands(k, self.validator.prev_commit_time).len() as int,
        )
    }

    /// The balance the wallet can spend right now: the sum of the
    /// amounts of this asset's records owned by us with the given
    /// freeze status, excluding records on hold for an in-flight
    /// transaction. Holds reduce this spendable balance; resolution or
    /// expiry of the transaction restores it.
    pub fn balance(&self, session: &WalletSession, asset: u64, frozen: FreezeFlag) -> (r: u64)
        requires
            self.wf(),
        ensures
            ({
                let k = RecordKey { asset_code: asset, owner: session.key_pair, frozen: frozen };
                r == if self.spendable_spec(k) <= u64::MAX {
                    self.spendable_spec(k)
                } else {
                    u64::MAX as int
                }
            }),
    {
        let now = self.validator.prev_commit_time;
        let ghost k = RecordKey { asset_code: asset, owner: session.key_pair, frozen: frozen };
        let cands = self.records.input_records(asset, session.key_pair, frozen, now);
        let ghost cs = self.records.cands(k, now);
        let n = cands.len();
        let mut total: u64 = 0;
        let mut i: usize = 0;
        while i < n
            invariant
                n == cs.len(),
                cands@ == cs,
                i <= n,
                total == if amounts_sum(cs, i as int) <= u64::MAX {
                    amounts_sum(cs, i as int)
                } else {
                    u64::MAX as int
                },
            decreases n - i,
        {
            let a = cands[i].ro.amount;
            if total > u64::MAX - a {
                total = u64::MAX;
            } else {
                total = total + a;
            }
            i += 1;
        }
        total
    }
}


/// The least number of leading candidates whose amounts reach
/// `amount`, scanning from prefix length `i + 1`; one past the end if
/// no prefix reaches it.
pub open spec fn least_prefix(cs: Seq<RecordInfo>, amount: int, i: int) -> int
    decreases cs.len() - i,
{
    if i < 0 || i >= cs.len() {
        cs.len() as int + 1
    } else if amounts_sum(cs, i + 1) >= amount {
        i + 1
    } else {
        least_prefix(cs, amount, i + 1)
    }
}

/// The characterization of the greedy allocator's result pins the
/// least covering prefix.
pub proof fn lemma_least_prefix(cs: Seq<RecordInfo>, amount: int, i: int, m: int)
    requires
        0 <= i < m <= cs.len(),
        amounts_sum(cs, m) >= amount,
        forall|j: int| i + 1 <= j < m ==> amounts_sum(cs, j) < amount,
    ensures
        least_prefix(cs, amount, i) == m,
    decreases m - i,
{
    if i + 1 < m {
        lemma_least_prefix(cs, amount, i + 1, m);
    }
}

impl WalletState {
    /// Can a selection for `amount` succeed on this slot: an exact
    /// usable record, or a covering prefix within the input allowance.
    pub open spec fn records_cover(
        &self,
        k: RecordKey,
        amount: u64,
        max_records: Option<usize>,
    ) -> bool {
        let now = self.validator.prev_commit_time;
        let cs = self.records.cands(k, now);
        self.records.has_exact_spec(k, amount, now) || (exists|m: int|
            1 <= m <= cs.len() && amounts_sum(cs, m) >= amount && (match max_records {
                Some(mr) => m <= mr as int,
                None => true,
            }))
    }

    /// How many inputs the allocator hands out when it succeeds.
    pub open spec fn selection_size(&self, k: RecordKey, amount: u64) -> int {
        let now = self.validator.prev_commit_time;
        let cs = self.records.cands(k, now);
        if self.records.has_exact_spec(k, amount, now) {
            1
        } else {
            least_prefix(cs, amount as int, 0)
        }
    }

    /// The change the allocator returns when it succeeds.
    pub open spec fn selection_change(&self, k: RecordKey, amount: u64) -> int {
        let now = self.validator.prev_commit_time;
        let cs = self.records.cands(k, now);
        if self.records.has_exact_spec(k, amount, now) {
            0
        } else {
            amounts_sum(cs, self.selection_size(k, amount)) - amount
        }
    }
}

impl WalletState {
    /// Choose input records of one slot that cover `amount`.
    ///
    /// If a usable record of exactly `amount` exists, it is returned
    /// alone with change 0, to avoid fragmenting larger records.
    /// Otherwise the largest usable records are taken in descending
    /// order until their sum reaches `amount`; the change is the
    /// overshoot. If `max_records` would be exceeded first, the call
    /// fails with `Fragmentation` carrying the sum that was reachable;
    /// if the records run out first, with `InsufficientBalance`.
    pub fn find_records(
        &self,
        asset: u64,
        owner: u64,
        frozen: FreezeFlag,
        amount: u64,
        max_records: Option<usize>,
    ) -> (r: Result<(Vec<(RecordOpening, u64)>, u64), WalletError>)
        requires
            self.wf(),
        ensures
            ({
                let now = self.validator.prev_commit_time;
                let k = RecordKey { asset_code: asset, owner: owner, frozen: frozen };
                let cs = self.records.cands(k, now);
                let exact = self.records.has_exact_spec(k, amount, now);
                &&& ((r is Ok) <==> self.records_cover(k, amount, max_records))
                &&& (r is Ok ==> r.unwrap().0@.len() == self.selection_size(k, amount)
                    && r.unwrap().1 == self.selection_change(k, amount))
                &&& match r {
                    Ok(res) => {
                        let v = res.0;
                        let change = res.1;
                        &&& forall|i: int|
                            0 <= i < v@.len() ==> self.records.recs().contains_key(
                                (#[trigger] v@[i]).1,
                            ) && v@[i].0 == self.records.recs()[v@[i].1].ro
                                && !self.records.recs()[v@[i].1].on_hold_spec(now)
                                && record_key_spec(v@[i].0) == k
                        &&& forall|i: int, j: int|
                            0 <= i < j < v@.len() ==> (#[trigger] v@[i]).1 != (#[trigger] v@[j]).1
                        &&& v@.len() >= 1
                        &&& exact ==> (v@.len() == 1 && change == 0 && v@[0].0.amount == amount)
                        &&& !exact ==> {
                            let m = v@.len() as int;
                            &&& m <= cs.len()
                            &&& forall|i: int|
                                0 <= i < m ==> #[trigger] v@[i] == (cs[i].ro, cs[i].uid)
                            &&& amounts_sum(cs, m) >= amount
                            &&& forall|i: int| 1 <= i < m ==> amounts_sum(cs, i) < amount
                            &&& change == amounts_sum(cs, m) - amount
                            &&& (match max_records {
                                Some(mr) => m <= mr,
                                None => true,
                            })
                        }
                    },
                    Err(e) => match e {
                        WalletError::Fragmentation {
                            asset: ea,
                            amount: em,
                            suggested_amount: sug,
                            max_records: mr,
                        } => {
                            &&& !exact
                            &&& ea == asset
                            &&& em == amount
                            &&& max_records == Some(mr)
                            &&& cs.len() > mr
                            &&& forall|i: int| 1 <= i <= mr ==> amounts_sum(cs, i) < amount
                            &&& sug == amounts_sum(cs, mr as int)
                        },
                        WalletError::InsufficientBalance { asset: ea, required, actual } => {
                            &&& !exact
                            &&& ea == asset
                            &&& required == amount
                            &&& forall|i: int| 1 <= i <= cs.len() ==> amounts_sum(cs, i) < amount
                            &&& actual == amounts_sum(cs, cs.len() as int)
                            &&& (match max_records {
                                Some(mr) => cs.len() <= mr,
                                None => true,
                            })
                        },
                        _ => false,
                    },
                }
            }),
    {
        let now = self.validator.prev_commit_time;
        let ghost k = RecordKey { asset_code: asset, owner: owner, frozen: frozen };

        if let Some(ri) = self.input_record_with_amount_checked(asset, owner, frozen, amount, now) {
            let mut v: Vec<(RecordOpening, u64)> = Vec::new();
            v.push((ri.ro, ri.uid));
            return Ok((v, 0));
        }
        proof {
            assert(!self.records.has_exact_spec(k, amount, now));
        }

        let cands = self.records.input_records(asset, owner, frozen, now);
        let ghost cs = self.records.cands(k, now);
        proof {
            self.records.lemma_cands_wf(k, now, self.records.bucket(k).len() as int);
        }
        let n = cands.len();
        let mut result: Vec<(RecordOpening, u64)> = Vec::new();
        let mut acc: u128 = 0;
        let mut idx: usize = 0;
        while idx < n
            invariant
                self.wf(),
                k == (RecordKey { asset_code: asset, owner: owner, frozen: frozen }),
                now == self.validator.prev_commit_time,
                cands@ == cs,
                cs == self.records.cands(k, now),
                n == cs.len(),
                idx <= n,
                result@.len() == idx,
                forall|i: int| 0 <= i < idx ==> #[trigger] result@[i] == (cs[i].ro, cs[i].uid),
                acc == amounts_sum(cs, idx as int),
                !self.records.has_exact_spec(k, amount, now),
                amount > 0 ==> acc < amount,
                amount == 0 ==> acc == 0,
                (match max_records {
                    Some(mr) => idx <= mr,
                    None => true,
                }),
                forall|i: int| 1 <= i <= idx ==> amounts_sum(cs, i) < amount,
                forall|i: int|
                    0 <= i < cs.len() ==> self.records.recs().contains_key(
                        (#[trigger] cs[i]).uid,
                    ) && cs[i] == self.records.recs()[cs[i].uid] && cs[i].ro.amount > 0 && !cs[i].on_hold_spec(
                        now,
                    ) && record_key_spec(cs[i].ro) == k,
                forall|i: int, j: int|
                    0 <= i < j < cs.len() ==> (#[trigger] cs[i]).uid != (#[trigger] cs[j]).uid,
            decreases n - idx,
        {
            if let Some(mr) = max_records {
                if idx >= mr {
                    proof {
                        assert(idx == mr);
                        assert(!self.records_cover(k, amount, max_records)) by {
                            if exists|m: int|
                                1 <= m <= cs.len() && amounts_sum(cs, m) >= amount && m <= mr as int {
                                let m = choose|m: int|
                                    1 <= m <= cs.len() && amounts_sum(cs, m) >= amount && m
                                        <= mr as int;
                                assert(amounts_sum(cs, m) < amount);
                            }
                        }
                    }
                    return Err(WalletError::Fragmentation {
                        asset: asset,
                        amount: amount,
                        suggested_amount: acc as u64,
                        max_records: mr,
                    });
                }
            }
            let rec = cands[idx];
            acc = acc + rec.ro.amount as u128;
            result.push((rec.ro, rec.uid));
            idx += 1;
            if acc >= amount as u128 {
                let change = (acc - amount as u128) as u64;
                proof {
                    assert(amounts_sum(cs, idx as int) == amounts_sum(cs, idx - 1) + cs[idx
                        - 1].ro.amount);
                    assert(acc - amount <= cs[idx - 1].ro.amount);
                    assert(self.records_cover(k, amount, max_records)) by {
                        assert(1 <= idx <= cs.len() && amounts_sum(cs, idx as int) >= amount);
                    }
                    lemma_least_prefix(cs, amount as int, 0, idx as int);
                    assert(result@.len() == self.selection_size(k, amount));
                    assert(change == self.selection_change(k, amount));
                }
                return Ok((result, change));
            }
        }
        proof {
            assert(!self.records_cover(k, amount, max_records)) by {
                if exists|m: int|
                    1 <= m <= cs.len() && amounts_sum(cs, m) >= amount && (match max_records {
                        Some(mr) => m <= mr as int,
                        None => true,
                    }) {
                    let m = choose|m: int|
                        1 <= m <= cs.len() && amounts_sum(cs, m) >= amount && (match max_records {
                            Some(mr) => m <= mr as int,
                            None => true,
                        });
                    assert(amounts_sum(cs, m) < amount);
                }
            }
        }
        Err(WalletError::InsufficientBalance { asset: asset, required: amount, actual: acc as u64 })
    }

    /// `input_record_with_amount`, with its slot facts carried over.
    fn input_record_with_amount_checked(
        &self,
        asset: u64,
        owner: u64,
        frozen: FreezeFlag,
        amount: u64,
        now: u64,
    ) -> (r: Option<RecordInfo>)
        requires
            self.wf(),
            now == self.validator.prev_commit_time,
        ensures
            ({
                let k = RecordKey { asset_code: asset, owner: owner, frozen: frozen };
                match r {
                    Some(ri) => self.records.has_exact_spec(k, amount, now)
                        && self.records.recs().contains_key(ri.uid) && ri
                        == self.records.recs()[ri.uid] && ri.ro.amount == amount
                        && !ri.on_hold_spec(now) && record_key_spec(ri.ro) == k,
                    None => !self.records.has_exact_spec(k, amount, now),
                }
            }),
    {
        self.records.input_record_with_amount(asset, owner, frozen, amount, now)
    }

    /// A native record able to pay the transaction fee: exactly one
    /// record (fee inputs take no change input), of amount at least
    /// `fee`.
    pub fn find_native_record_for_fee(&self, session: &WalletSession, fee: u64) -> (r: Result<
        (RecordOpening, u64),
        WalletError,
    >)
        requires
            self.wf(),
        ensures
            (r is Ok) <==> self.records_cover(
                Self::native_fee_slot(session.key_pair),
                fee,
                Some(1usize),
            ),
            ({
                let now = self.validator.prev_commit_time;
                let k = RecordKey {
                    asset_code: NATIVE_ASSET_CODE,
                    owner: session.key_pair,
                    frozen: FreezeFlag::Unfrozen,
                };
                match r {
                    Ok(p) => self.records.recs().contains_key(p.1) && p.0
                        == self.records.recs()[p.1].ro && !self.records.recs()[p.1].on_hold_spec(
                        now,
                    ) && record_key_spec(p.0) == k && p.0.amount >= fee,
                    Err(e) => fee_err_ok(*self, e, session.key_pair, fee),
                }
            }),
    {
        match self.find_records(
            NATIVE_ASSET_CODE,
            session.key_pair,
            FreezeFlag::Unfrozen,
            fee,
            Some(1),
        ) {
            Ok((records, _change)) => {
                let ghost now = self.validator.prev_commit_time;
                let ghost k = RecordKey {
                    asset_code: NATIVE_ASSET_CODE,
                    owner: session.key_pair,
                    frozen: FreezeFlag::Unfrozen,
                };
                proof {
                    let cs = self.records.cands(k, now);
                    assert(self.records.recs().contains_key(records@[0].1));
                    if !self.records.has_exact_spec(k, fee, now) {
                        assert(records@.len() == 1);
                        assert(amounts_sum(cs, 1) >= fee);
                        assert(amounts_sum(cs, 1) == amounts_sum(cs, 0) + cs[0].ro.amount);
                        assert(amounts_sum(cs, 0) == 0);
                        assert(records@[0] == (cs[0].ro, cs[0].uid));
                    } else {
                        assert(records@[0].0.amount == fee);
                    }
                }
                let first = records[0];
                Ok(first)
            },
            Err(e) => Err(e),
        }
    }
}




/// Total amount a receiver list asks for.
pub open spec fn receivers_total(rs: Seq<(u64, u64)>, n: int) -> int
    decreases n,
{
    if n <= 0 {
        0
    } else {
        receivers_total(rs, n - 1) + rs[n - 1].1
    }
}

pub proof fn lemma_receivers_total_monotone(rs: Seq<(u64, u64)>, i: int, j: int)
    requires
        0 <= i <= j,
    ensures
        receivers_total(rs, i) <= receivers_total(rs, j),
    decreases j,
{
    if i < j {
        lemma_receivers_total_monotone(rs, i, j - 1);
    }
}

/// Sum of the amounts of the first `n` chosen input records.
pub open spec fn inputs_total(inputs: Seq<(RecordOpening, u64)>, n: int) -> int
    decreases n,
{
    if n <= 0 {
        0
    } else {
        inputs_total(inputs, n - 1) + inputs[n - 1].0.amount
    }
}

/// Prefixes of the chosen inputs sum like the candidate prefixes they
/// mirror.
pub proof fn lemma_inputs_prefix_sum(
    v: Seq<(RecordOpening, u64)>,
    cs: Seq<crate::records::RecordInfo>,
    n: int,
)
    requires
        0 <= n <= v.len(),
        n <= cs.len(),
        forall|i: int| 0 <= i < n ==> (#[trigger] v[i]).0 == cs[i].ro,
    ensures
        inputs_total(v, n) == amounts_sum(cs, n),
    decreases n,
{
    if n > 0 {
        lemma_inputs_prefix_sum(v, cs, n - 1);
    }
}

/// Equal in every observable field; only the random stream may differ.
pub open spec fn eq_mod_rng(a: WalletState, b: WalletState) -> bool {
    &&& a.now == b.now
    &&& a.validator == b.validator
    &&& a.proving_keys == b.proving_keys
    &&& a.records == b.records
    &&& a.auditor_key_pair == b.auditor_key_pair
    &&& a.auditable_assets == b.auditable_assets
    &&& a.freezer_key_pair == b.freezer_key_pair
    &&& a.nullifiers == b.nullifiers
    &&& a.defined_assets == b.defined_assets
    &&& a.pending_txns == b.pending_txns
    &&& a.expiring_txns == b.expiring_txns
}

/// Two states equal in every observable field are equally well-formed.
pub proof fn lemma_eq_mod_rng_wf(a: WalletState, b: WalletState)
    requires
        a.wf(),
        eq_mod_rng(a, b),
    ensures
        b.wf(),
{
    assert forall|n: Nullifier| #[trigger]
        b.pending_txns@.contains_key(n) implies b.pending_ok(n, b.pending_txns@[n]) by {
        assert(a.pending_ok(n, a.pending_txns@[n]));
        assert(b.expiring_has(b.pending_txns@[n].timeout, n) == a.expiring_has(
            a.pending_txns@[n].timeout,
            n,
        ));
    }
}

/// Sum the first `n` input amounts, clamped to the machine word.
fn sum_input_amounts(inputs: &Vec<(RecordOpening, u64)>, n: usize) -> (r: u64)
    requires
        n <= inputs@.len(),
    ensures
        r == if inputs_total(inputs@, n as int) <= u64::MAX {
            inputs_total(inputs@, n as int)
        } else {
            u64::MAX as int
        },
{
    let mut total: u64 = 0;
    let mut i: usize = 0;
    while i < n
        invariant
            n <= inputs@.len(),
            i <= n,
            total == if inputs_total(inputs@, i as int) <= u64::MAX {
                inputs_total(inputs@, i as int)
            } else {
                u64::MAX as int
            },
        decreases n - i,
    {
        let a = inputs[i].0.amount;
        if total > u64::MAX - a {
            total = u64::MAX;
        } else {
            total = total + a;
        }
        i += 1;
    }
    total
}

impl WalletState {
    /// A fresh record opening with a random blinding factor.
    fn new_opening(
        &mut self,
        amount: u64,
        asset: &AssetDefinition,
        pub_key: u64,
        freeze_flag: FreezeFlag,
    ) -> (r: RecordOpening)
        ensures
            eq_mod_rng(*old(self), *final(self)),
            r.amount == amount,
            r.asset_def == *asset,
            r.pub_key == pub_key,
            r.freeze_flag == freeze_flag,
    {
        let blind = rng_next(&mut self.rng);
        RecordOpening { amount, asset_def: *asset, pub_key, freeze_flag, blind }
    }

    /// Find a transfer proving key for this arity, padding the outputs
    /// with zero-amount records to ourselves up to the key's output
    /// arity (less the automatic fee change). A key that would need
    /// dummy inputs is rejected rather than padded.
    fn xfr_proving_key(
        &mut self,
        me: u64,
        asset: &AssetDefinition,
        inputs: &Vec<(RecordOpening, u64)>,
        total_amount: u64,
        outputs: &mut Vec<RecordOpening>,
        change_record: bool,
    ) -> (r: Result<KeySize, WalletError>)
        requires
            old(self).wf(),
            old(outputs)@.len() < usize::MAX,
            inputs@.len() > 0,
            inputs@.len() < usize::MAX,
            change_record ==> old(outputs)@.len() >= 1,
        ensures
            eq_mod_rng(*old(self), *final(self)),
            final(self).wf(),
            ({
                let fee_inputs: int = if asset.code == NATIVE_ASSET_CODE {
                    0
                } else {
                    1
                };
                let num_inputs = inputs@.len() + fee_inputs;
                let num_outputs = old(outputs)@.len() + 1;
                let keys = old(self).proving_keys.xfr;
                match r {
                    Ok(k) => {
                        &&& keys.has_fit(num_inputs as u64, num_outputs as u64)
                        &&& k == crate::key_set::chosen_key(
                            keys,
                            num_inputs as u64,
                            num_outputs as u64,
                        )
                        &&& k.num_inputs == num_inputs
                        &&& k.num_outputs >= num_outputs
                        &&& final(outputs)@.len() == k.num_outputs - 1
                        &&& forall|i: int|
                            0 <= i < old(outputs)@.len() ==> #[trigger] final(outputs)@[i] == old(
                            outputs)@[i]
                        &&& forall|i: int|
                            old(outputs)@.len() <= i < final(outputs)@.len() ==> (
                            #[trigger] final(outputs)@[i]).amount == 0 && final(outputs)@[i].pub_key
                                == me && final(outputs)@[i].asset_def == *asset && final(outputs)@[i].freeze_flag == FreezeFlag::Unfrozen
                    },
                    Err(e) => {
                        &&& final(outputs)@ == old(outputs)@
                        &&& match e {
                            WalletError::TooManyOutputs {
                                asset: ea,
                                max_records: mr,
                                num_receivers: nr,
                                num_change_records: nc,
                            } => {
                                &&& !keys.has_fit(num_inputs as u64, num_outputs as u64)
                                &&& ea == asset.code
                                &&& mr == keys.max_outputs_spec()
                                &&& keys.max_outputs_spec() < num_outputs
                                &&& nr + nc == num_outputs && nc == 1 + (if change_record {
                                    1int
                                } else {
                                    0int
                                })
                            },
                            WalletError::Fragmentation {
                                asset: ea,
                                amount: am,
                                suggested_amount: sug,
                                max_records: mr,
                            } => {
                                &&& !keys.has_fit(num_inputs as u64, num_outputs as u64)
                                &&& keys.max_outputs_spec() >= num_outputs
                                &&& ea == asset.code
                                &&& am == total_amount
                                &&& (mr + fee_inputs == keys.max_inputs_for_spec(
                                    num_outputs as u64,
                                ) || (mr == 0 && keys.max_inputs_for_spec(num_outputs as u64)
                                    <= fee_inputs))
                                &&& mr < inputs@.len()
                                &&& sug == (if inputs_total(inputs@, mr as int) <= u64::MAX {
                                    inputs_total(inputs@, mr as int)
                                } else {
                                    u64::MAX as int
                                })
                            },
                            WalletError::CryptoError => keys.has_fit(
                                num_inputs as u64,
                                num_outputs as u64,
                            ) && crate::key_set::chosen_key(
                                keys,
                                num_inputs as u64,
                                num_outputs as u64,
                            ).num_inputs > num_inputs,
                            _ => false,
                        }
                    },
                }
            }),
    {
        let fee_inputs: usize = if asset.code == NATIVE_ASSET_CODE {
            0
        } else {
            1
        };
        let num_inputs = inputs.len() + fee_inputs;
        let num_outputs = outputs.len() + 1;
        let selection = self.proving_keys.xfr.best_fit_key(num_inputs as u64, num_outputs as u64);
        match selection {
            Err(m) => {
                let (max_inputs, max_outputs) = m;
                let ilen = inputs.len();
                if max_outputs >= num_outputs as u64 {
                    // enough outputs exist, the inputs are the problem
                    let mr64: u64 = if max_inputs > fee_inputs as u64 {
                        max_inputs - fee_inputs as u64
                    } else {
                        0
                    };
                    proof {
                        assert(mr64 < ilen) by {
                            if mr64 >= ilen {
                                KeySet::lemma_max_inputs_witness(
                                    self.proving_keys.xfr.keys@,
                                    num_outputs as u64,
                                );
                                let i = choose|i: int|
                                    0 <= i < self.proving_keys.xfr.keys@.len() && (
                                    #[trigger] self.proving_keys.xfr.keys@[i]).num_outputs
                                        >= num_outputs as u64
                                        && self.proving_keys.xfr.keys@[i].num_inputs
                                        == self.proving_keys.xfr.max_inputs_for_spec(
                                        num_outputs as u64,
                                    );
                                assert(crate::key_set::key_fits(
                                    self.proving_keys.xfr.keys@[i],
                                    num_inputs as u64,
                                    num_outputs as u64,
                                ));
                            }
                        }
                    }
                    let mr: usize = mr64 as usize;
                    let sug = sum_input_amounts(inputs, mr);
                    return Err(WalletError::Fragmentation {
                        asset: asset.code,
                        amount: total_amount,
                        suggested_amount: sug,
                        max_records: mr,
                    });
                } else {
                    let nc: usize = if change_record {
                        2
                    } else {
                        1
                    };
                    proof {
                        KeySet::lemma_max_outputs_bound(
                            self.proving_keys.xfr.keys@,
                            usize::MAX as u64,
                        );
                    }
                    return Err(WalletError::TooManyOutputs {
                        asset: asset.code,
                        max_records: max_outputs as usize,
                        num_receivers: num_outputs - nc,
                        num_change_records: nc,
                    });
                }
            },
            Ok(k) => {
                if (num_inputs as u64) < k.num_inputs {
                    // this key would need dummy inputs; reject the
                    // shortfall rather than pad silently
                    return Err(WalletError::CryptoError);
                }
                // pad with dummy outputs, leaving room for the fee
                // change output
                proof {
                    let keys = self.proving_keys.xfr.keys@;
                    let i = choose|i: int| 0 <= i < keys.len() && #[trigger] keys[i] == k;
                    assert(k.num_outputs <= usize::MAX);
                }
                let target: usize = (k.num_outputs - 1) as usize;
                while outputs.len() < target
                    invariant
                        target < usize::MAX,
                        old(outputs)@.len() <= outputs@.len(),
                        outputs@.len() <= target || outputs@.len() == old(outputs)@.len(),
                        forall|i: int|
                            0 <= i < old(outputs)@.len() ==> #[trigger] outputs@[i] == old(
                            outputs)@[i],
                        forall|i: int|
                            old(outputs)@.len() <= i < outputs@.len() ==> (
                            #[trigger] outputs@[i]).amount == 0 && outputs@[i].pub_key == me
                                && outputs@[i].asset_def == *asset && outputs@[i].freeze_flag
                                == FreezeFlag::Unfrozen,
                        eq_mod_rng(*old(self), *self),
                        old(self).wf(),
                    decreases target - outputs.len(),
                {
                    let dummy = self.new_opening(0, asset, me, FreezeFlag::Unfrozen);
                    outputs.push(dummy);
                }
                proof {
                    assert(outputs@.len() == target) by {
                        assert(old(outputs)@.len() <= target);
                    }
                    assert(eq_mod_rng(*old(self), *self));
                    assert(self.wf()) by {
                        lemma_eq_mod_rng_wf(*old(self), *self);
                    }
                }
                Ok(k)
            },
        }
    }

    /// Find a freeze proving key: freeze transactions have equal input
    /// and output counts (the fee input and its change included). A key
    /// that would need dummy inputs is rejected rather than padded.
    fn freeze_proving_key(
        &self,
        asset: &AssetDefinition,
        inputs: &Vec<(RecordOpening, u64)>,
        amount: u64,
    ) -> (r: Result<KeySize, WalletError>)
        requires
            self.wf(),
            inputs@.len() < usize::MAX,
            inputs@.len() > 0,
        ensures
            ({
                let num_inputs = inputs@.len() + 1;
                let keys = self.proving_keys.freeze;
                match r {
                    Ok(k) => {
                        &&& keys.has_fit(num_inputs as u64, num_inputs as u64)
                        &&& k == crate::key_set::chosen_key(
                            keys,
                            num_inputs as u64,
                            num_inputs as u64,
                        )
                        &&& k.num_inputs == num_inputs
                        &&& k.num_outputs >= num_inputs
                    },
                    Err(e) => match e {
                        WalletError::Fragmentation {
                            asset: ea,
                            amount: am,
                            suggested_amount: sug,
                            max_records: mr,
                        } => {
                            &&& !keys.has_fit(num_inputs as u64, num_inputs as u64)
                            &&& ea == asset.code
                            &&& am == amount
                            &&& (mr + 1 == keys.max_inputs_for_spec(num_inputs as u64) || (mr == 0
                                && keys.max_inputs_for_spec(num_inputs as u64) <= 1))
                            &&& mr < inputs@.len()
                            &&& sug == (if inputs_total(inputs@, mr as int) <= u64::MAX {
                                inputs_total(inputs@, mr as int)
                            } else {
                                u64::MAX as int
                            })
                        },
                        WalletError::CryptoError => keys.has_fit(
                            num_inputs as u64,
                            num_inputs as u64,
                        ) && crate::key_set::chosen_key(
                            keys,
                            num_inputs as u64,
                            num_inputs as u64,
                        ).num_inputs > num_inputs,
                        _ => false,
                    },
                }
            }),
    {
        let num_inputs = inputs.len() + 1;
        match self.proving_keys.freeze.best_fit_key(num_inputs as u64, num_inputs as u64) {
            Err(m) => {
                let (max_inputs, _max_outputs) = m;
                let ilen = inputs.len();
                let mr64: u64 = if max_inputs > 1 {
                    max_inputs - 1
                } else {
                    0
                };
                proof {
                    assert(mr64 < ilen) by {
                        if mr64 >= ilen {
                            KeySet::lemma_max_inputs_witness(
                                self.proving_keys.freeze.keys@,
                                num_inputs as u64,
                            );
                            let i = choose|i: int|
                                0 <= i < self.proving_keys.freeze.keys@.len() && (
                                #[trigger] self.proving_keys.freeze.keys@[i]).num_outputs
                                    >= num_inputs as u64
                                    && self.proving_keys.freeze.keys@[i].num_inputs
                                    == self.proving_keys.freeze.max_inputs_for_spec(
                                    num_inputs as u64,
                                );
                            assert(crate::key_set::key_fits(
                                self.proving_keys.freeze.keys@[i],
                                num_inputs as u64,
                                num_inputs as u64,
                            ));
                        }
                    }
                }
                let mr: usize = mr64 as usize;
                let sug = sum_input_amounts(inputs, mr);
                Err(WalletError::Fragmentation {
                    asset: asset.code,
                    amount: amount,
                    suggested_amount: sug,
                    max_records: mr,
                })
            },
            Ok(k) => {
                if (num_inputs as u64) < k.num_inputs {
                    return Err(WalletError::CryptoError);
                }
                Ok(k)
            },
        }
    }

    /// The slot a transfer of `asset` by `me` draws its inputs from.
    pub open spec fn xfr_slot(me: u64, asset: AssetDefinition) -> RecordKey {
        RecordKey { asset_code: asset.code, owner: me, frozen: FreezeFlag::Unfrozen }
    }

    pub open spec fn native_fee_slot(me: u64) -> RecordKey {
        RecordKey { asset_code: NATIVE_ASSET_CODE, owner: me, frozen: FreezeFlag::Unfrozen }
    }

    /// What the allocator hands a successful call: exactly the clauses
    /// of `find_records`' success case.
    pub open spec fn selection_post(
        &self,
        k: RecordKey,
        amount: u64,
        v: Seq<(RecordOpening, u64)>,
        change: u64,
    ) -> bool {
        let now = self.validator.prev_commit_time;
        let cs = self.records.cands(k, now);
        let exact = self.records.has_exact_spec(k, amount, now);
        &&& forall|i: int|
            0 <= i < v.len() ==> self.records.recs().contains_key((#[trigger] v[i]).1) && v[i].0
                == self.records.recs()[v[i].1].ro && !self.records.recs()[v[i].1].on_hold_spec(now)
                && record_key_spec(v[i].0) == k
        &&& forall|i: int, j: int| 0 <= i < j < v.len() ==> (#[trigger] v[i]).1 != (#[trigger] v[j]).1
        &&& v.len() >= 1
        &&& v.len() == self.selection_size(k, amount)
        &&& change == self.selection_change(k, amount)
        &&& (exact ==> (v.len() == 1 && change == 0 && v[0].0.amount == amount))
        &&& (!exact ==> {
            let m = v.len() as int;
            &&& m <= cs.len()
            &&& forall|i: int| 0 <= i < m ==> #[trigger] v[i] == (cs[i].ro, cs[i].uid)
            &&& amounts_sum(cs, m) >= amount
            &&& forall|i: int| 1 <= i < m ==> amounts_sum(cs, i) < amount
            &&& change == amounts_sum(cs, m) - amount
        })
    }

    /// The whole chain of a transfer can succeed: the asset records
    /// cover the total, the selection fits the machine, for non-native
    /// assets a native fee record covers the fee, and a proving key
    /// takes exactly this arity.
    pub open spec fn xfr_selection_ok(
        &self,
        me: u64,
        asset: AssetDefinition,
        rs: Seq<(u64, u64)>,
        fee: u64,
    ) -> bool {
        let total_int = receivers_total(rs, rs.len() as int) + fee;
        let sel_int = receivers_total(rs, rs.len() as int) + (if asset.code == NATIVE_ASSET_CODE {
            fee as int
        } else {
            0int
        });
        let total = sel_int as u64;
        let k = Self::xfr_slot(me, asset);
        let m = self.selection_size(k, total);
        let fee_inputs: int = if asset.code == NATIVE_ASSET_CODE {
            0
        } else {
            1
        };
        let ni = m + fee_inputs;
        let no = rs.len() as int + 1 + (if asset.code != NATIVE_ASSET_CODE
            && self.selection_change(k, total) > 0 {
            1int
        } else {
            0int
        });
        &&& 0 <= total_int <= u64::MAX
        &&& self.records_cover(k, total, None)
        &&& m <= usize::MAX - 2
        &&& (asset.code != NATIVE_ASSET_CODE ==> self.records_cover(
            Self::native_fee_slot(me),
            fee,
            Some(1usize),
        ))
        &&& self.proving_keys.xfr.has_fit(ni as u64, no as u64)
        &&& crate::key_set::chosen_key(self.proving_keys.xfr, ni as u64, no as u64).num_inputs
            == ni
    }
}

/// The conditions under which paying a fee from a single native record
/// fails.
pub open spec fn fee_err_ok(pre: WalletState, e: WalletError, me: u64, fee: u64) -> bool {
    let k = WalletState::native_fee_slot(me);
    let now = pre.validator.prev_commit_time;
    let cs = pre.records.cands(k, now);
    let exact = pre.records.has_exact_spec(k, fee, now);
    match e {
        WalletError::Fragmentation { asset: a, amount: am, suggested_amount: sug, max_records: mr,
        } => {
            &&& a == NATIVE_ASSET_CODE
            &&& am == fee
            &&& mr == 1
            &&& !exact
            &&& cs.len() > 1
            &&& amounts_sum(cs, 1) < fee
            &&& sug == amounts_sum(cs, 1)
        },
        WalletError::InsufficientBalance { asset: a, required, actual } => {
            &&& a == NATIVE_ASSET_CODE
            &&& required == fee
            &&& !exact
            &&& forall|i: int| 1 <= i <= cs.len() ==> amounts_sum(cs, i) < fee
            &&& actual == amounts_sum(cs, cs.len() as int)
        },
        _ => false,
    }
}

/// The conditions under which building a transfer fails, each error
/// tied to the stage that produces it.
pub open spec fn xfr_err_ok(
    pre: WalletState,
    e: WalletError,
    me: u64,
    asset: AssetDefinition,
    rs: Seq<(u64, u64)>,
    fee: u64,
) -> bool {
    let sel_int = receivers_total(rs, rs.len() as int) + (if asset.code == NATIVE_ASSET_CODE {
        fee as int
    } else {
        0int
    });
    let total = sel_int as u64;
    let k = WalletState::xfr_slot(me, asset);
    let now = pre.validator.prev_commit_time;
    let cs = pre.records.cands(k, now);
    let exact = pre.records.has_exact_spec(k, total, now);
    let m = pre.selection_size(k, total);
    let fee_inputs: int = if asset.code == NATIVE_ASSET_CODE {
        0
    } else {
        1
    };
    let ni = m + fee_inputs;
    let no = rs.len() as int + 1 + (if asset.code != NATIVE_ASSET_CODE && pre.selection_change(
        k,
        total,
    ) > 0 {
        1int
    } else {
        0int
    });
    let keys = pre.proving_keys.xfr;
    let covered = pre.records_cover(k, total, None);
    let fee_covered = (asset.code != NATIVE_ASSET_CODE ==> pre.records_cover(
        WalletState::native_fee_slot(me),
        fee,
        Some(1usize),
    ));
    match e {
        WalletError::InsufficientBalance { asset: a, required, actual } => (a == asset.code
            && required == total && !covered && actual == amounts_sum(cs, cs.len() as int)) || (
        asset.code != NATIVE_ASSET_CODE && covered && m <= usize::MAX - 2 && fee_err_ok(
            pre,
            e,
            me,
            fee,
        )),
        WalletError::Fragmentation { asset: a, amount: am, suggested_amount: sug, max_records: mr,
        } => (a == asset.code && am == total && covered && m <= usize::MAX - 2 && fee_covered
            && !keys.has_fit(ni as u64, no as u64) && keys.max_outputs_spec() >= no && (!exact
            ==> ((mr + fee_inputs == keys.max_inputs_for_spec(no as u64) || (mr == 0
            && keys.max_inputs_for_spec(no as u64) <= fee_inputs)) && mr < m && sug == amounts_sum(
            cs,
            mr as int,
        )))) || (asset.code != NATIVE_ASSET_CODE && covered && m <= usize::MAX - 2 && fee_err_ok(
            pre,
            e,
            me,
            fee,
        )),
        WalletError::TooManyOutputs { asset: a, max_records: mrec, num_receivers: nr, num_change_records: nc,
        } => {
            &&& a == asset.code
            &&& covered
            &&& m <= usize::MAX - 2
            &&& fee_covered
            &&& !keys.has_fit(ni as u64, no as u64)
            &&& keys.max_outputs_spec() < no
            &&& mrec == keys.max_outputs_spec()
            &&& nr + nc == no
            &&& nc == 1 + (if asset.code != NATIVE_ASSET_CODE && pre.selection_change(k, total) > 0 {
                1int
            } else {
                0int
            })
        },
        WalletError::CryptoError => covered && (m > usize::MAX - 2 || (fee_covered && keys.has_fit(
            ni as u64,
            no as u64,
        ) && crate::key_set::chosen_key(keys, ni as u64, no as u64).num_inputs > ni)),
        _ => false,
    }
}

/// The receiver list after resolving each address through a directory.
pub open spec fn resolve_spec(book: Map<u64, u64>, rs: Seq<(u64, u64)>) -> Seq<(u64, u64)> {
    Seq::new(rs.len(), |j: int| (book[rs[j].0], rs[j].1))
}

/// Sum of the amounts of the records a nullifier list spends.
pub open spec fn spent_total(pre: WalletState, nulls: Seq<Nullifier>, n: int) -> int
    decreases n,
{
    if n <= 0 {
        0
    } else {
        spent_total(pre, nulls, n - 1) + pre.records.recs()[nulls[n - 1].uid].ro.amount
    }
}

/// Sum of the amounts a memo list delivers.
pub open spec fn memo_total(memos: Seq<ReceiverMemo>, n: int) -> int
    decreases n,
{
    if n <= 0 {
        0
    } else {
        memo_total(memos, n - 1) + memos[n - 1].ro.amount
    }
}

/// Sum of the amounts of a list of openings.
pub open spec fn ro_total(s: Seq<RecordOpening>, n: int) -> int
    decreases n,
{
    if n <= 0 {
        0
    } else {
        ro_total(s, n - 1) + s[n - 1].amount
    }
}

/// The spent sum equals the sum of the chosen inputs they nullify.
pub proof fn lemma_spent_eq_inputs(
    pre: WalletState,
    nulls: Seq<Nullifier>,
    v: Seq<(RecordOpening, u64)>,
    n: int,
)
    requires
        0 <= n <= nulls.len(),
        n <= v.len(),
        forall|i: int|
            0 <= i < n ==> #[trigger] nulls[i] == nullify_spec(v[i].0, v[i].1)
                && pre.records.recs()[v[i].1].ro == v[i].0,
    ensures
        spent_total(pre, nulls, n) == inputs_total(v, n),
    decreases n,
{
    if n > 0 {
        lemma_spent_eq_inputs(pre, nulls, v, n - 1);
    }
}

/// Prepending one input shifts the sum by its amount.
pub proof fn lemma_inputs_total_shift(
    all: Seq<(RecordOpening, u64)>,
    v: Seq<(RecordOpening, u64)>,
    n: int,
)
    requires
        0 <= n <= v.len(),
        all.len() >= 1 + n,
        forall|i: int| 0 <= i < n ==> #[trigger] all[i + 1] == v[i],
    ensures
        inputs_total(all, 1 + n) == all[0].0.amount + inputs_total(v, n),
    decreases n,
{
    if n > 0 {
        lemma_inputs_total_shift(all, v, n - 1);
        assert(all[(n - 1) + 1] == v[n - 1]);
        assert(inputs_total(all, 1 + n) == inputs_total(all, (1 + n) - 1) + all[(1 + n)
            - 1].0.amount);
    } else {
        assert(inputs_total(all, 1) == inputs_total(all, 0) + all[0].0.amount);
    }
}

/// Memos mirror the outputs, the automatic first output leading.
pub proof fn lemma_memo_total(
    memos: Seq<ReceiverMemo>,
    outs: Seq<RecordOpening>,
    first: RecordOpening,
    n: int,
)
    requires
        0 <= n <= outs.len(),
        memos.len() >= 1 + n,
        memos[0].ro == first,
        forall|i: int| 0 <= i < n ==> (#[trigger] memos[i + 1]).ro == outs[i],
    ensures
        memo_total(memos, 1 + n) == first.amount + ro_total(outs, n),
    decreases n,
{
    if n > 0 {
        lemma_memo_total(memos, outs, first, n - 1);
        assert(memos[(n - 1) + 1].ro == outs[n - 1]);
        assert(memo_total(memos, 1 + n) == memo_total(memos, (1 + n) - 1) + memos[(1 + n)
            - 1].ro.amount);
    } else {
        assert(memo_total(memos, 1) == memo_total(memos, 0) + memos[0].ro.amount);
    }
}

/// Zero-amount padding does not change the sum.
pub proof fn lemma_ro_total_zero_tail(s: Seq<RecordOpening>, n0: int, n: int)
    requires
        0 <= n0 <= n <= s.len(),
        forall|j: int| n0 <= j < n ==> (#[trigger] s[j]).amount == 0,
    ensures
        ro_total(s, n) == ro_total(s, n0),
    decreases n - n0,
{
    if n > n0 {
        lemma_ro_total_zero_tail(s, n0, n - 1);
    }
}

/// Outputs built one per receiver sum to the receivers' total.
pub proof fn lemma_ro_total_matches_receivers(
    s: Seq<RecordOpening>,
    rs: Seq<(u64, u64)>,
    n: int,
)
    requires
        0 <= n <= s.len(),
        n <= rs.len(),
        forall|j: int| 0 <= j < n ==> (#[trigger] s[j]).amount == rs[j].1,
    ensures
        ro_total(s, n) == receivers_total(rs, n),
    decreases n,
{
    if n > 0 {
        lemma_ro_total_matches_receivers(s, rs, n - 1);
    }
}

/// What a successfully built transfer bundle looks like, relative to
/// the states before and after: a transfer note bound to the current
/// record root, memos matching the output commitments one for one,
/// with the fee change to us first and one output per receiver next,
/// then asset change to us or zero-amount padding; a memo signature
/// the note's key verifies; nullifier proofs current for our mirror;
/// every input one of our own unfrozen, unheld records of the right
/// asset, now on hold; value conserved up to the fee; and the pending
/// index carrying the whole transaction under its fee nullifier.
pub open spec fn transfer_bundle_ok(
    pre: WalletState,
    post: WalletState,
    b: TransactionBundle,
    me: u64,
    asset: AssetDefinition,
    rs: Seq<(u64, u64)>,
    fee: u64,
) -> bool {
    &&& b.txn.txn.kind == NoteKind::Transfer
    &&& forall|i: int|
        0 <= i < b.txn.txn.nullifiers@.len() ==> {
            let nu = #[trigger] b.txn.txn.nullifiers@[i];
            &&& pre.records.recs().contains_key(nu.uid)
            &&& pre.records.recs()[nu.uid].ro.pub_key == me
            &&& pre.records.recs()[nu.uid].ro.freeze_flag == FreezeFlag::Unfrozen
            &&& !pre.records.recs()[nu.uid].on_hold_spec(pre.validator.prev_commit_time)
            &&& (i == 0 ==> pre.records.recs()[nu.uid].ro.asset_def.code == NATIVE_ASSET_CODE)
            &&& (i >= 1 ==> pre.records.recs()[nu.uid].ro.asset_def.code == asset.code)
        }
    &&& spent_total(pre, b.txn.txn.nullifiers@, b.txn.txn.nullifiers@.len() as int) == memo_total(
        b.memos@,
        b.memos@.len() as int,
    ) + fee
    &&& b.txn.txn.record_root == pre.validator.record_root
    &&& b.memos@.len() == b.txn.txn.output_commitments@.len()
    &&& b.memos@.len() > rs.len()
    &&& forall|i: int|
        0 <= i < b.memos@.len() ==> (#[trigger] b.txn.txn.output_commitments@[i]).ro
            == b.memos@[i].ro
    &&& forall|j: int|
        0 <= j < rs.len() ==> (#[trigger] b.memos@[j + 1]).ro.amount == rs[j].1 && b.memos@[j
            + 1].ro.pub_key == rs[j].0 && b.memos@[j + 1].ro.asset_def == asset && b.memos@[j
            + 1].ro.freeze_flag == FreezeFlag::Unfrozen
    &&& b.memos@[0].ro.pub_key == me
    &&& b.memos@[0].ro.asset_def == AssetDefinition::native_spec()
    &&& b.memos@[0].ro.freeze_flag == FreezeFlag::Unfrozen
    &&& forall|i: int|
        rs.len() + 1 <= i < b.memos@.len() ==> ((#[trigger] b.memos@[i]).ro.amount == 0 || (
        b.memos@[i].ro.pub_key == me && b.memos@[i].ro.asset_def == asset))
    &&& b.sig.key == b.txn.txn.memo_verif_key
    &&& b.sig.memo_count == b.memos@.len()
    &&& b.txn.proofs@.len() == b.txn.txn.nullifiers@.len()
    &&& forall|i: int|
        0 <= i < b.txn.proofs@.len() ==> (#[trigger] b.txn.proofs@[i]).version
            == pre.nullifiers.version_spec()
    &&& b.txn.txn.nullifiers@.len() > 0
    &&& forall|i: int|
        0 <= i < b.txn.txn.nullifiers@.len() ==> pre.records.nuls().contains_key(
            #[trigger] b.txn.txn.nullifiers@[i],
        )
    &&& post.pending_txns@.contains_key(b.txn.txn.nullifiers@[0])
    &&& ({
        let pt = post.pending_txns@[b.txn.txn.nullifiers@[0]];
        &&& pt.nullifiers@ == b.txn.txn.nullifiers@
        &&& pt.receiver_memos@ == b.memos@
        &&& pt.signature == b.sig
        &&& pt.timeout == pre.validator.prev_commit_time + RECORD_HOLD_TIME
    })
    &&& forall|u: u64|
        #[trigger] post.records.recs().contains_key(u) <==> pre.records.recs().contains_key(u)
    &&& forall|i: int|
        0 <= i < b.txn.txn.nullifiers@.len() ==> post.records.recs()[(
        #[trigger] b.txn.txn.nullifiers@[i]).uid].hold_until == Some(
            (pre.validator.prev_commit_time + RECORD_HOLD_TIME) as u64,
        )
    &&& forall|u: u64|
        (#[trigger] pre.records.recs().contains_key(u) && (forall|m: int|
            0 <= m < b.txn.txn.nullifiers@.len() ==> (#[trigger] b.txn.txn.nullifiers@[m]).uid
                != u)) ==> post.records.recs()[u] == pre.records.recs()[u]
    // per-asset books: the asset's own records cover and pay the
    // receivers, any overshoot returns as an explicit change output,
    // the fee comes out of the native fee input alone, and the note
    // uses the least proving key fitting exactly this arity
    &&& ({
        let nulls = b.txn.txn.nullifiers@;
        let total_rs = receivers_total(rs, rs.len() as int);
        let is_nat = asset.code == NATIVE_ASSET_CODE;
        let sel_total = (total_rs + (if is_nat {
            fee as int
        } else {
            0int
        })) as u64;
        let k = WalletState::xfr_slot(me, asset);
        let change = pre.selection_change(k, sel_total);
        let nch: int = if !is_nat && change > 0 {
            1int
        } else {
            0int
        };
        &&& pre.records_cover(k, sel_total, None)
        &&& nulls.len() == pre.selection_size(k, sel_total) + (if is_nat {
            0int
        } else {
            1int
        })
        &&& (is_nat ==> b.memos@[0].ro.amount == change)
        &&& (!is_nat ==> {
            &&& b.memos@[0].ro.amount == pre.records.recs()[nulls[0].uid].ro.amount - fee
            &&& spent_total(pre, nulls, nulls.len() as int) == pre.records.recs()[nulls[0].uid].ro.amount
                + total_rs + change
            &&& (change > 0 ==> b.memos@[rs.len() as int + 1].ro.amount == change
                && b.memos@[rs.len() as int + 1].ro.pub_key == me && b.memos@[rs.len() as int
                + 1].ro.asset_def == asset)
        })
        &&& forall|i: int|
            rs.len() + 1 + nch <= i < b.memos@.len() ==> (#[trigger] b.memos@[i]).ro.amount == 0
        &&& pre.proving_keys.xfr.has_fit(nulls.len() as u64, (rs.len() + 1 + nch) as u64)
        &&& ({
            let kk = crate::key_set::chosen_key(
                pre.proving_keys.xfr,
                nulls.len() as u64,
                (rs.len() + 1 + nch) as u64,
            );
            &&& kk.num_inputs == nulls.len()
            &&& kk.num_outputs == b.memos@.len()
        })
    })
}

impl WalletState {
    /// Hold every input record of a just-built transaction until the
    /// transaction commits, is rejected, or times out, and index the
    /// pending transaction by its fee nullifier and its timeout. The
    /// timeout is the validator time at which the transaction's proofs
    /// cease to verify.
    #[verifier::rlimit(100)]
    #[verifier::spinoff_prover]
    fn add_pending_transaction(
        &mut self,
        nullifiers: &Vec<Nullifier>,
        receiver_memos: Vec<ReceiverMemo>,
        signature: MemoSignature,
        freeze_outputs: Vec<RecordOpening>,
    ) -> (timeout: u64)
        requires
            old(self).wf(),
            old(self).validator.prev_commit_time + RECORD_HOLD_TIME <= u64::MAX,
            nullifiers@.len() > 0,
            forall|i: int, j: int|
                0 <= i < j < nullifiers@.len() ==> nullifiers@[i] != nullifiers@[j],
            forall|i: int|
                0 <= i < nullifiers@.len() ==> old(self).records.nuls().contains_key(
                    #[trigger] nullifiers@[i],
                ) && !old(self).records.recs()[nullifiers@[i].uid].on_hold_spec(
                    old(self).validator.prev_commit_time,
                ),
        ensures
            final(self).wf(),
            timeout == old(self).validator.prev_commit_time + RECORD_HOLD_TIME,
            final(self).pending_txns@.contains_key(nullifiers@[0]),
            ({
                let pt = final(self).pending_txns@[nullifiers@[0]];
                pt.nullifiers@ == nullifiers@ && pt.receiver_memos == receiver_memos
                    && pt.signature == signature && pt.freeze_outputs == freeze_outputs
                    && pt.timeout == timeout
            }),
            forall|n: Nullifier|
                n != nullifiers@[0] ==> ((#[trigger] final(self).pending_txns@.contains_key(n)
                    <==> old(self).pending_txns@.contains_key(n)) && (old(self).pending_txns@.contains_key(n) ==> final(self).pending_txns@[n] == old(self).pending_txns@[n])),
            forall|u: u64|
                #[trigger] final(self).records.recs().contains_key(u) <==> old(self).records.recs().contains_key(u),
            forall|i: int|
                0 <= i < nullifiers@.len() ==> final(self).records.recs()[(
                #[trigger] nullifiers@[i]).uid] == (RecordInfo {
                    ro: old(self).records.recs()[nullifiers@[i].uid].ro,
                    uid: nullifiers@[i].uid,
                    hold_until: Some(timeout),
                }),
            forall|u: u64|
                (#[trigger] old(self).records.recs().contains_key(u) && (forall|m: int|
                    0 <= m < nullifiers@.len() ==> (#[trigger] nullifiers@[m]).uid != u)) ==> final(
                self).records.recs()[u] == old(self).records.recs()[u],
            final(self).now == old(self).now,
            final(self).validator == old(self).validator,
            final(self).nullifiers == old(self).nullifiers,
            final(self).auditable_assets == old(self).auditable_assets,
            final(self).defined_assets == old(self).defined_assets,
            final(self).proving_keys == old(self).proving_keys,
            final(self).auditor_key_pair == old(self).auditor_key_pair,
            final(self).freezer_key_pair == old(self).freezer_key_pair,
            final(self).records.nuls() == old(self).records.nuls(),
            final(self).rng == old(self).rng,
    {
        let ghost prev = self.validator.prev_commit_time;
        let now = self.validator.prev_commit_time;
        let timeout = now + RECORD_HOLD_TIME;
        let n0 = nullifiers[0];

        proof {
            // No input of ours is also an input of an older pending
            // transaction: those are on hold, ours are not.
            assert forall|i: int, n2: Nullifier, j: int|
                0 <= i < nullifiers@.len() && old(self).pending_txns@.contains_key(n2) && 0 <= j
                    < old(self).pending_txns@[n2].nullifiers@.len() implies #[trigger] nullifiers@[i]
                != #[trigger] old(self).pending_txns@[n2].nullifiers@[j] by {
                let m = old(self).pending_txns@[n2].nullifiers@[j];
                if nullifiers@[i] == m {
                    assert(old(self).records.nuls().contains_key(m));
                    assert(old(self).records.recs()[m.uid].hold_until == Some(
                        old(self).pending_txns@[n2].timeout,
                    ));
                    assert(old(self).pending_txns@[n2].timeout > prev);
                    assert(old(self).records.recs()[m.uid].on_hold_spec(prev));
                }
            }
            assert(!old(self).pending_txns@.contains_key(n0)) by {
                if old(self).pending_txns@.contains_key(n0) {
                    assert(old(self).pending_txns@[n0].nullifiers@[0] == n0);
                    assert(nullifiers@[0] != old(self).pending_txns@[n0].nullifiers@[0]);
                }
            }
        }

        // Place the holds.
        let nlen = nullifiers.len();
        let mut i: usize = 0;
        while i < nlen
            invariant
                old(self).wf(),
                nlen == nullifiers@.len(),
                i <= nlen,
                prev == old(self).validator.prev_commit_time,
                timeout == prev + RECORD_HOLD_TIME,
                forall|p2: int, q: int|
                    0 <= p2 < q < nullifiers@.len() ==> nullifiers@[p2] != nullifiers@[q],
                forall|m: int|
                    0 <= m < nullifiers@.len() ==> old(self).records.nuls().contains_key(
                        #[trigger] nullifiers@[m],
                    ) && !old(self).records.recs()[nullifiers@[m].uid].on_hold_spec(prev),
                self.records.wf(),
                forall|u: u64|
                    #[trigger] self.records.recs().contains_key(u) <==> old(
                    self).records.recs().contains_key(u),
                self.records.nuls() == old(self).records.nuls(),
                forall|k: RecordKey|
                    #[trigger] self.records.bucket(k) == old(self).records.bucket(k),
                forall|m: int|
                    0 <= m < i ==> self.records.recs()[(#[trigger] nullifiers@[m]).uid] == (
                    RecordInfo {
                        ro: old(self).records.recs()[nullifiers@[m].uid].ro,
                        uid: nullifiers@[m].uid,
                        hold_until: Some(timeout),
                    }),
                forall|u: u64|
                    (#[trigger] old(self).records.recs().contains_key(u) && (forall|m: int|
                        0 <= m < i ==> (#[trigger] nullifiers@[m]).uid != u))
                        ==> self.records.recs()[u] == old(self).records.recs()[u],
                self.pending_txns == old(self).pending_txns,
                self.expiring_txns == old(self).expiring_txns,
                self.validator == old(self).validator,
                self.now == old(self).now,
                self.nullifiers == old(self).nullifiers,
                self.auditable_assets == old(self).auditable_assets,
                self.defined_assets == old(self).defined_assets,
                self.rng == old(self).rng,
                self.proving_keys == old(self).proving_keys,
                self.auditor_key_pair == old(self).auditor_key_pair,
                self.freezer_key_pair == old(self).freezer_key_pair,
            decreases nlen - i,
        {
            let n = nullifiers[i];
            proof {
                assert(old(self).records.nuls().contains_key(n));
                assert(self.records.nuls().contains_key(n));
            }
            let ghost pre_recs = self.records.recs();
            self.records.hold_record_with_nullifier(&n, timeout);
            proof {
                assert forall|m: int|
                    0 <= m < i + 1 implies self.records.recs()[(#[trigger] nullifiers@[m]).uid]
                    == (RecordInfo {
                    ro: old(self).records.recs()[nullifiers@[m].uid].ro,
                    uid: nullifiers@[m].uid,
                    hold_until: Some(timeout),
                }) by {
                    if m < i {
                        if nullifiers@[m].uid == n.uid {
                            assert(old(self).records.recs()[n.uid].nullifier_spec()
                                == nullifiers@[m]);
                            assert(old(self).records.recs()[n.uid].nullifier_spec()
                                == nullifiers@[i as int]);
                        }
                        assert(self.records.recs()[nullifiers@[m].uid] == pre_recs[nullifiers@[m].uid]);
                    } else {
                        assert(pre_recs.contains_key(n.uid));
                        assert(pre_recs[n.uid].ro == old(self).records.recs()[n.uid].ro);
                    }
                }
                assert forall|u: u64|
                    #[trigger] old(self).records.recs().contains_key(u) && (forall|m: int|
                        0 <= m < i + 1 ==> (#[trigger] nullifiers@[m]).uid != u) implies
                    self.records.recs()[u] == old(self).records.recs()[u] by {
                    assert(nullifiers@[i as int].uid != u);
                    assert(self.records.recs()[u] == pre_recs[u]);
                }
            }
            i += 1;
        }

        // Index the pending transaction.
        let pt = PendingTransaction {
            nullifiers: crate::types::copy_vec(nullifiers),
            receiver_memos,
            signature,
            freeze_outputs,
            timeout,
        };
        self.pending_txns.insert(n0, pt);
        if !self.expiring_txns.contains_key(&timeout) {
            self.expiring_txns.insert(timeout, Vec::new());
        }
        let ghost mid = *self;
        match self.expiring_txns.get_mut(&timeout) {
            Some(b) => {
                let ghost pre_b = b@;
                b.push(n0);
            },
            None => {
                proof {
                    assert(false);
                }
            },
        }
        proof {
            self.lemma_add_pending_wf(*old(self), mid, nullifiers@, timeout, n0);
        }
        timeout
    }

    /// After the holds, the pending entry and the expiry entry are in
    /// place, the whole wallet state is well-formed again.
    #[verifier::rlimit(100)]
    #[verifier::spinoff_prover]
    proof fn lemma_add_pending_wf(
        &self,
        pre: Self,
        mid: Self,
        nuls: Seq<Nullifier>,
        timeout: u64,
        n0: Nullifier,
    )
        requires
            pre.wf(),
            pre.validator.prev_commit_time + RECORD_HOLD_TIME <= u64::MAX,
            timeout == pre.validator.prev_commit_time + RECORD_HOLD_TIME,
            nuls.len() > 0,
            n0 == nuls[0],
            forall|i: int, j: int| 0 <= i < j < nuls.len() ==> nuls[i] != nuls[j],
            forall|i: int|
                0 <= i < nuls.len() ==> pre.records.nuls().contains_key(#[trigger] nuls[i])
                    && !pre.records.recs()[nuls[i].uid].on_hold_spec(
                    pre.validator.prev_commit_time,
                ),
            forall|i: int, n2: Nullifier, j: int|
                0 <= i < nuls.len() && pre.pending_txns@.contains_key(n2) && 0 <= j
                    < pre.pending_txns@[n2].nullifiers@.len() ==> #[trigger] nuls[i]
                    != #[trigger] pre.pending_txns@[n2].nullifiers@[j],
            !pre.pending_txns@.contains_key(n0),
            // the records after the holds
            self.records.wf(),
            forall|u: u64|
                #[trigger] self.records.recs().contains_key(u) <==> pre.records.recs().contains_key(
                    u,
                ),
            self.records.nuls() == pre.records.nuls(),
            forall|i: int|
                0 <= i < nuls.len() ==> self.records.recs()[(#[trigger] nuls[i]).uid].hold_until
                    == Some(timeout),
            forall|u: u64|
                #[trigger] pre.records.recs().contains_key(u) && (forall|m: int|
                    0 <= m < nuls.len() ==> (#[trigger] nuls[m]).uid != u)
                    ==> self.records.recs()[u] == pre.records.recs()[u],
            // the pending index after the insert
            self.pending_txns.wf(),
            self.pending_txns@.contains_key(n0),
            self.pending_txns@[n0].nullifiers@ == nuls,
            self.pending_txns@[n0].timeout == timeout,
            forall|n: Nullifier|
                n != n0 ==> ((#[trigger] self.pending_txns@.contains_key(n)
                    <==> pre.pending_txns@.contains_key(n)) && (pre.pending_txns@.contains_key(n)
                    ==> self.pending_txns@[n] == pre.pending_txns@[n])),
            // the expiry index after the push
            self.expiring_txns.wf(),
            mid.expiring_txns.wf(),
            mid.expiring_txns@.contains_key(timeout),
            self.expiring_txns@ == mid.expiring_txns@.insert(
                timeout,
                self.expiring_txns@[timeout],
            ),
            self.expiring_txns@.contains_key(timeout),
            self.expiring_txns@[timeout]@ == mid.expiring_txns@[timeout]@.push(n0),
            forall|t: u64|
                t != timeout ==> ((#[trigger] mid.expiring_txns@.contains_key(t)
                    <==> pre.expiring_txns@.contains_key(t)) && (pre.expiring_txns@.contains_key(t)
                    ==> mid.expiring_txns@[t] == pre.expiring_txns@[t])),
            (pre.expiring_txns@.contains_key(timeout) ==> mid.expiring_txns@[timeout]
                == pre.expiring_txns@[timeout]),
            (!pre.expiring_txns@.contains_key(timeout) ==> mid.expiring_txns@[timeout]@.len()
                == 0),
            // untouched parts
            self.validator == pre.validator,
            self.proving_keys == pre.proving_keys,
            self.nullifiers == pre.nullifiers,
            self.auditable_assets == pre.auditable_assets,
            self.defined_assets == pre.defined_assets,
        ensures
            self.wf(),
    {
        let prev = pre.validator.prev_commit_time;
        assert(RECORD_HOLD_TIME > 0);
        assert forall|u: u64| #[trigger]
            self.records.recs().contains_key(u) implies u < self.validator.record_count by {
            assert(pre.records.recs().contains_key(u));
        }
        assert forall|u: u64| #[trigger]
            self.records.recs().contains_key(u) implies self.validator.remembered@.contains_key(
            u,
        ) by {
            assert(pre.records.recs().contains_key(u));
        }
        // pending_wf
        assert forall|n: Nullifier| #[trigger]
            self.pending_txns@.contains_key(n) implies self.pending_ok(
            n,
            self.pending_txns@[n],
        ) by {
            if n == n0 {
                let pt = self.pending_txns@[n0];
                assert(pt.nullifiers@[0] == n0);
                assert forall|i: int| 0 <= i < pt.nullifiers@.len() implies (
                #[trigger] pt.nullifiers@[i]).uid < self.validator.record_count by {
                    assert(pre.records.nuls().contains_key(nuls[i]));
                    assert(pre.records.recs().contains_key(nuls[i].uid));
                }
                assert(self.expiring_has(timeout, n0)) by {
                    let b = self.expiring_txns@[timeout]@;
                    assert(b[b.len() - 1] == n0);
                }
            } else {
                let pt = self.pending_txns@[n];
                assert(pre.pending_ok(n, pt));
                assert forall|i: int|
                    0 <= i < pt.nullifiers@.len() && self.records.nuls().contains_key(
                        #[trigger] pt.nullifiers@[i],
                    ) implies self.records.recs()[pt.nullifiers@[i].uid].hold_until == Some(
                    pt.timeout,
                ) by {
                    let m = pt.nullifiers@[i];
                    assert(pre.records.nuls().contains_key(m));
                    assert(pre.records.recs().contains_key(m.uid));
                    assert forall|q: int| 0 <= q < nuls.len() implies (#[trigger] nuls[q]).uid
                        != m.uid by {
                        if nuls[q].uid == m.uid {
                            assert(pre.records.recs()[m.uid].nullifier_spec() == m);
                            assert(pre.records.recs()[m.uid].nullifier_spec() == nuls[q]);
                            assert(nuls[q] == m);
                        }
                    }
                    assert(self.records.recs()[m.uid] == pre.records.recs()[m.uid]);
                }
                assert(self.expiring_has(pt.timeout, n)) by {
                    assert(pre.expiring_has(pt.timeout, n));
                    if pt.timeout == timeout {
                        assert(pre.expiring_txns@.contains_key(timeout));
                        let b0 = pre.expiring_txns@[timeout]@;
                        let i = choose|i: int| 0 <= i < b0.len() && b0[i] == n;
                        assert(self.expiring_txns@[timeout]@[i] == n);
                    } else {
                        assert(pre.expiring_txns@.contains_key(pt.timeout));
                        assert(mid.expiring_txns@.contains_key(pt.timeout));
                        assert(mid.expiring_txns@[pt.timeout] == pre.expiring_txns@[pt.timeout]);
                        assert(self.expiring_txns@[pt.timeout] == mid.expiring_txns@[pt.timeout]);
                        let b0 = pre.expiring_txns@[pt.timeout]@;
                        let i = choose|i: int| 0 <= i < b0.len() && b0[i] == n;
                        assert(self.expiring_txns@[pt.timeout]@[i] == n);
                    }
                }
            }
        }
        // expiring_wf
        assert forall|t: u64| #[trigger] self.expiring_txns@.contains_key(t) implies (forall|
            i: int,
        |
            0 <= i < self.expiring_txns@[t]@.len() ==> self.pending_txns@.contains_key(
                #[trigger] self.expiring_txns@[t]@[i],
            ) && self.pending_txns@[self.expiring_txns@[t]@[i]].timeout == t) && (forall|
            i: int,
            j: int,
        |
            0 <= i < j < self.expiring_txns@[t]@.len() ==> self.expiring_txns@[t]@[i]
                != self.expiring_txns@[t]@[j]) by {
            if t == timeout {
                let b = self.expiring_txns@[timeout]@;
                assert forall|i: int| 0 <= i < b.len() implies self.pending_txns@.contains_key(
                    #[trigger] b[i],
                ) && self.pending_txns@[b[i]].timeout == t by {
                    if i < b.len() - 1 {
                        assert(pre.expiring_txns@.contains_key(timeout));
                        assert(b[i] == pre.expiring_txns@[timeout]@[i]);
                        assert(pre.pending_txns@.contains_key(b[i]));
                        assert(b[i] != n0);
                    } else {
                        assert(b[i] == n0);
                    }
                }
                assert forall|i: int, j: int| 0 <= i < j < b.len() implies b[i] != b[j] by {
                    if j < b.len() - 1 {
                        assert(pre.expiring_txns@.contains_key(timeout));
                        assert(b[i] == pre.expiring_txns@[timeout]@[i]);
                        assert(b[j] == pre.expiring_txns@[timeout]@[j]);
                    } else {
                        assert(b[j] == n0);
                        assert(pre.expiring_txns@.contains_key(timeout));
                        assert(b[i] == pre.expiring_txns@[timeout]@[i]);
                        assert(pre.pending_txns@.contains_key(b[i]));
                    }
                }
            } else {
                assert(mid.expiring_txns@.contains_key(t));
                assert(pre.expiring_txns@.contains_key(t));
                assert(mid.expiring_txns@[t] == pre.expiring_txns@[t]);
                assert(self.expiring_txns@[t] == mid.expiring_txns@[t]);
                let b = self.expiring_txns@[t]@;
                assert forall|i: int| 0 <= i < b.len() implies self.pending_txns@.contains_key(
                    #[trigger] b[i],
                ) && self.pending_txns@[b[i]].timeout == t by {
                    assert(b[i] == pre.expiring_txns@[t]@[i]);
                    assert(pre.pending_txns@.contains_key(pre.expiring_txns@[t]@[i]));
                    assert(pre.pending_txns@[pre.expiring_txns@[t]@[i]].timeout == t);
                    assert(pre.pending_txns@.contains_key(b[i]));
                    assert(pre.pending_txns@[b[i]].timeout == t);
                    assert(b[i] != n0) by {
                        if b[i] == n0 {
                            assert(pre.pending_txns@.contains_key(n0));
                        }
                    }
                    assert(self.pending_txns@.contains_key(b[i]));
                    assert(self.pending_txns@[b[i]] == pre.pending_txns@[b[i]]);
                }
            }
        }
        // pending_disjoint
        assert forall|n1: Nullifier, n2: Nullifier|
            #[trigger] self.pending_txns@.contains_key(n1)
                && #[trigger] self.pending_txns@.contains_key(n2) && n1 != n2 implies nul_lists_disjoint(
            self.pending_txns@[n1].nullifiers@,
            self.pending_txns@[n2].nullifiers@,
        ) by {
            if n1 == n0 {
                assert(pre.pending_txns@.contains_key(n2));
            } else if n2 == n0 {
                assert(pre.pending_txns@.contains_key(n1));
                assert forall|i: int, j: int|
                    0 <= i < self.pending_txns@[n1].nullifiers@.len() && 0 <= j < nuls.len()
                    implies #[trigger] self.pending_txns@[n1].nullifiers@[i] != #[trigger] nuls[j] by {
                }
            } else {
                assert(pre.pending_txns@.contains_key(n1));
                assert(pre.pending_txns@.contains_key(n2));
            }
        }
    }

    /// Attach nullifier non-membership proofs from our mirror and hand
    /// the transaction over, placing its inputs on hold.
    fn submit_transaction(
        &mut self,
        note: TransactionNote,
        memos: Vec<ReceiverMemo>,
        sig: MemoSignature,
        freeze_outputs: Vec<RecordOpening>,
    ) -> (r: TransactionBundle)
        requires
            old(self).wf(),
            old(self).validator.prev_commit_time + RECORD_HOLD_TIME <= u64::MAX,
            note.nullifiers@.len() > 0,
            forall|i: int, j: int|
                0 <= i < j < note.nullifiers@.len() ==> note.nullifiers@[i] != note.nullifiers@[j],
            forall|i: int|
                0 <= i < note.nullifiers@.len() ==> old(self).records.nuls().contains_key(
                    #[trigger] note.nullifiers@[i],
                ) && !old(self).records.recs()[note.nullifiers@[i].uid].on_hold_spec(
                    old(self).validator.prev_commit_time,
                ),
        ensures
            final(self).wf(),
            r.txn.txn == note,
            r.txn.proofs@.len() == note.nullifiers@.len(),
            forall|i: int|
                0 <= i < r.txn.proofs@.len() ==> (#[trigger] r.txn.proofs@[i]).version == old(
                self).nullifiers.version_spec(),
            r.memos@ == memos@,
            r.sig == sig,
            final(self).pending_txns@.contains_key(note.nullifiers@[0]),
            ({
                let pt = final(self).pending_txns@[note.nullifiers@[0]];
                &&& pt.nullifiers@ == note.nullifiers@
                &&& pt.receiver_memos@ == memos@
                &&& pt.signature == sig
                &&& pt.freeze_outputs == freeze_outputs
                &&& pt.timeout == old(self).validator.prev_commit_time + RECORD_HOLD_TIME
            }),
            forall|n: Nullifier|
                n != note.nullifiers@[0] ==> ((#[trigger] final(self).pending_txns@.contains_key(n)
                    <==> old(self).pending_txns@.contains_key(n)) && (old(
                self).pending_txns@.contains_key(n) ==> final(self).pending_txns@[n] == old(
                self).pending_txns@[n])),
            forall|u: u64|
                #[trigger] final(self).records.recs().contains_key(u) <==> old(
                self).records.recs().contains_key(u),
            forall|i: int|
                0 <= i < note.nullifiers@.len() ==> final(self).records.recs()[(
                #[trigger] note.nullifiers@[i]).uid] == (RecordInfo {
                    ro: old(self).records.recs()[note.nullifiers@[i].uid].ro,
                    uid: note.nullifiers@[i].uid,
                    hold_until: Some(
                        (old(self).validator.prev_commit_time + RECORD_HOLD_TIME) as u64,
                    ),
                }),
            forall|u: u64|
                (#[trigger] old(self).records.recs().contains_key(u) && (forall|m: int|
                    0 <= m < note.nullifiers@.len() ==> (#[trigger] note.nullifiers@[m]).uid != u))
                    ==> final(self).records.recs()[u] == old(self).records.recs()[u],
            final(self).now == old(self).now,
            final(self).validator == old(self).validator,
            final(self).nullifiers == old(self).nullifiers,
            final(self).auditable_assets == old(self).auditable_assets,
            final(self).defined_assets == old(self).defined_assets,
            final(self).proving_keys == old(self).proving_keys,
            final(self).auditor_key_pair == old(self).auditor_key_pair,
            final(self).freezer_key_pair == old(self).freezer_key_pair,
            final(self).records.nuls() == old(self).records.nuls(),
            final(self).rng == old(self).rng,
    {
        let mut proofs: Vec<NulProof> = Vec::new();
        let n = note.nullifiers.len();
        let mut i: usize = 0;
        while i < n
            invariant
                *self == *old(self),
                old(self).wf(),
                n == note.nullifiers@.len(),
                i <= n,
                proofs@.len() == i,
                forall|m: int|
                    0 <= m < i ==> (#[trigger] proofs@[m]).version == old(self).nullifiers.version_spec(),
            decreases n - i,
        {
            let (_member, pf) = self.nullifiers.contains(&note.nullifiers[i]);
            proofs.push(pf);
            i += 1;
        }
        let memos_copy = crate::types::copy_vec(&memos);
        self.add_pending_transaction(&note.nullifiers, memos_copy, sig, freeze_outputs);
        TransactionBundle { txn: ElaboratedTransaction { txn: note, proofs }, memos, sig }
    }

    /// Build the note, memos and signature for a set of inputs and
    /// outputs (the automatic first output leading), attach proofs and
    /// hand the transaction over with its inputs on hold.
    #[verifier::rlimit(50)]
    fn assemble_transfer(
        &mut self,
        session: &WalletSession,
        kind: NoteKind,
        audit_memo: Option<AuditMemo>,
        input_records: &Vec<(RecordOpening, u64)>,
        first_output: RecordOpening,
        outputs: Vec<RecordOpening>,
        freeze_outputs: Vec<RecordOpening>,
    ) -> (r: TransactionBundle)
        requires
            old(self).wf(),
            old(self).validator.prev_commit_time + RECORD_HOLD_TIME <= u64::MAX,
            input_records@.len() > 0,
            forall|i: int, j: int|
                0 <= i < j < input_records@.len() ==> (#[trigger] input_records@[i]).1 != (
                #[trigger] input_records@[j]).1,
            forall|i: int|
                0 <= i < input_records@.len() ==> old(self).records.recs().contains_key(
                    (#[trigger] input_records@[i]).1,
                ) && input_records@[i].0 == old(self).records.recs()[input_records@[i].1].ro && !old(self).records.recs()[input_records@[i].1].on_hold_spec(
                    old(self).validator.prev_commit_time,
                ),
        ensures
            final(self).wf(),
            final(self).now == old(self).now,
            final(self).validator == old(self).validator,
            final(self).nullifiers == old(self).nullifiers,
            final(self).auditable_assets == old(self).auditable_assets,
            final(self).defined_assets == old(self).defined_assets,
            final(self).proving_keys == old(self).proving_keys,
            final(self).auditor_key_pair == old(self).auditor_key_pair,
            final(self).freezer_key_pair == old(self).freezer_key_pair,
            final(self).records.nuls() == old(self).records.nuls(),
            forall|u: u64|
                #[trigger] final(self).records.recs().contains_key(u) <==> old(self).records.recs().contains_key(u),
            r.txn.txn.kind == kind,
            r.txn.txn.record_root == old(self).validator.record_root,
            r.txn.txn.audit_memo == audit_memo,
            r.memos@.len() == 1 + outputs@.len(),
            r.memos@.len() == r.txn.txn.output_commitments@.len(),
            r.memos@[0].ro == first_output,
            forall|i: int| 0 <= i < outputs@.len() ==> (#[trigger] r.memos@[i + 1]).ro == outputs@[i],
            forall|i: int|
                0 <= i < r.memos@.len() ==> (#[trigger] r.txn.txn.output_commitments@[i]).ro
                    == r.memos@[i].ro,
            r.sig.key == r.txn.txn.memo_verif_key,
            r.sig.memo_count == r.memos@.len(),
            r.txn.proofs@.len() == r.txn.txn.nullifiers@.len(),
            forall|i: int|
                0 <= i < r.txn.proofs@.len() ==> (#[trigger] r.txn.proofs@[i]).version == old(self).nullifiers.version_spec(),
            r.txn.txn.nullifiers@.len() == input_records@.len(),
            forall|i: int|
                0 <= i < input_records@.len() ==> #[trigger] r.txn.txn.nullifiers@[i]
                    == nullify_spec(input_records@[i].0, input_records@[i].1),
            forall|i: int|
                0 <= i < r.txn.txn.nullifiers@.len() ==> old(self).records.nuls().contains_key(
                    #[trigger] r.txn.txn.nullifiers@[i],
                ),
            final(self).pending_txns@.contains_key(r.txn.txn.nullifiers@[0]),
            ({
                let pt = final(self).pending_txns@[r.txn.txn.nullifiers@[0]];
                &&& pt.nullifiers@ == r.txn.txn.nullifiers@
                &&& pt.receiver_memos@ == r.memos@
                &&& pt.signature == r.sig
                &&& pt.freeze_outputs == freeze_outputs
                &&& pt.timeout == old(self).validator.prev_commit_time + RECORD_HOLD_TIME
            }),
            forall|n: Nullifier|
                n != r.txn.txn.nullifiers@[0] ==> ((
                #[trigger] final(self).pending_txns@.contains_key(n) <==> old(self).pending_txns@.contains_key(n)) && (old(self).pending_txns@.contains_key(n)
                    ==> final(self).pending_txns@[n] == old(self).pending_txns@[n])),
            forall|i: int|
                0 <= i < r.txn.txn.nullifiers@.len() ==> final(self).records.recs()[(
                #[trigger] r.txn.txn.nullifiers@[i]).uid].hold_until == Some(
                    (old(self).validator.prev_commit_time + RECORD_HOLD_TIME) as u64,
                ),
            forall|u: u64|
                (#[trigger] old(self).records.recs().contains_key(u) && (forall|m: int|
                    0 <= m < r.txn.txn.nullifiers@.len() ==> (
                    #[trigger] r.txn.txn.nullifiers@[m]).uid != u)) ==> final(
                self).records.recs()[u] == old(self).records.recs()[u],
    {
        let ilen = input_records.len();

        // Membership witnesses exist for every input: our records are
        // always remembered in the mirrored tree.
        let mut w: usize = 0;
        while w < ilen
            invariant
                *self == *old(self),
                old(self).wf(),
                ilen == input_records@.len(),
                w <= ilen,
                forall|i: int|
                    0 <= i < input_records@.len() ==> old(self).records.recs().contains_key(
                        (#[trigger] input_records@[i]).1,
                    ),
            decreases ilen - w,
        {
            match self.validator.member_witness(input_records[w].1) {
                Some(_root) => {},
                None => {
                    proof {
                        assert(self.records.recs().contains_key(input_records@[w as int].1));
                        assert(false);
                    }
                },
            }
            w += 1;
        }

        // Derive the input nullifiers.
        let mut nullifiers: Vec<Nullifier> = Vec::new();
        let mut i: usize = 0;
        while i < ilen
            invariant
                *self == *old(self),
                old(self).wf(),
                ilen == input_records@.len(),
                i <= ilen,
                nullifiers@.len() == i,
                forall|m: int|
                    0 <= m < i ==> #[trigger] nullifiers@[m] == nullify_spec(
                        input_records@[m].0,
                        input_records@[m].1,
                    ),
            decreases ilen - i,
        {
            let p = input_records[i];
            nullifiers.push(nullify(&p.0, p.1));
            i += 1;
        }

        // All outputs, the automatic first output leading.
        let mut all_outputs: Vec<RecordOpening> = Vec::new();
        all_outputs.push(first_output);
        let olen = outputs.len();
        let mut o: usize = 0;
        while o < olen
            invariant
                *self == *old(self),
                old(self).wf(),
                ilen == input_records@.len(),
                nullifiers@.len() == ilen,
                forall|m: int|
                    0 <= m < ilen ==> #[trigger] nullifiers@[m] == nullify_spec(
                        input_records@[m].0,
                        input_records@[m].1,
                    ),
                olen == outputs@.len(),
                o <= olen,
                all_outputs@.len() == 1 + o,
                all_outputs@[0] == first_output,
                forall|m: int| 0 <= m < o ==> #[trigger] all_outputs@[m + 1] == outputs@[m],
            decreases olen - o,
        {
            all_outputs.push(outputs[o]);
            o += 1;
        }

        // Commitments and receiver memos, one for each output.
        let mut commitments: Vec<RecordCommitment> = Vec::new();
        let mut memos: Vec<ReceiverMemo> = Vec::new();
        let alen = all_outputs.len();
        let mut c: usize = 0;
        while c < alen
            invariant
                *self == *old(self),
                old(self).wf(),
                ilen == input_records@.len(),
                nullifiers@.len() == ilen,
                forall|m: int|
                    0 <= m < ilen ==> #[trigger] nullifiers@[m] == nullify_spec(
                        input_records@[m].0,
                        input_records@[m].1,
                    ),
                olen == outputs@.len(),
                alen == all_outputs@.len(),
                alen == 1 + olen,
                all_outputs@[0] == first_output,
                forall|m: int| 0 <= m < olen ==> #[trigger] all_outputs@[m + 1] == outputs@[m],
                c <= alen,
                commitments@.len() == c,
                memos@.len() == c,
                forall|m: int|
                    0 <= m < c ==> (#[trigger] commitments@[m]).ro == all_outputs@[m],
                forall|m: int| 0 <= m < c ==> (#[trigger] memos@[m]).ro == all_outputs@[m],
            decreases alen - c,
        {
            let ro = all_outputs[c];
            commitments.push(RecordCommitment { ro });
            memos.push(ReceiverMemo::from_ro(&ro));
            c += 1;
        }

        let memo_key = rng_next(&mut self.rng);
        proof {
            lemma_eq_mod_rng_wf(*old(self), *self);
        }
        let note = TransactionNote {
            kind,
            nullifiers,
            output_commitments: commitments,
            audit_memo,
            record_root: self.validator.record_root,
            memo_verif_key: memo_key,
        };
        let sig = MemoSignature { key: memo_key, memo_count: memos.len() };
        proof {
            assert(memos@.len() == 1 + outputs@.len());
            assert(memos@[0].ro == all_outputs@[0]);
            assert(memos@[0].ro == first_output);
            assert forall|i2: int| 0 <= i2 < outputs@.len() implies (#[trigger] memos@[i2 + 1]).ro
                == outputs@[i2] by {
                assert(memos@[i2 + 1].ro == all_outputs@[i2 + 1]);
                assert(all_outputs@[i2 + 1] == outputs@[i2]);
            }
            assert forall|a: int, b2: int|
                0 <= a < b2 < note.nullifiers@.len() implies note.nullifiers@[a]
                != note.nullifiers@[b2] by {
                assert(input_records@[a].1 != input_records@[b2].1);
            }
            assert forall|a: int|
                0 <= a < note.nullifiers@.len() implies self.records.nuls().contains_key(
                #[trigger] note.nullifiers@[a],
            ) && !self.records.recs()[note.nullifiers@[a].uid].on_hold_spec(
                self.validator.prev_commit_time,
            ) by {
                let u = input_records@[a].1;
                assert(self.records.recs().contains_key(u));
                assert(self.records.recs()[u].uid == u);
                assert(self.records.recs()[u].nullifier_spec() == nullify_spec(
                    self.records.recs()[u].ro,
                    u,
                ));
                assert(note.nullifiers@[a] == self.records.recs()[u].nullifier_spec());
                assert(self.records.nuls().contains_key(self.records.recs()[u].nullifier_spec()));
            }
        }
        let ghost pre_pending = self.pending_txns@;
        let r = self.submit_transaction(note, memos, sig, freeze_outputs);
        proof {
            assert(r.txn.txn == note);
            assert forall|n: Nullifier|
                n != r.txn.txn.nullifiers@[0] implies ((
            #[trigger] self.pending_txns@.contains_key(n) <==> old(
            self).pending_txns@.contains_key(n)) && (old(self).pending_txns@.contains_key(n)
                ==> self.pending_txns@[n] == old(self).pending_txns@[n])) by {
                assert(n != note.nullifiers@[0]);
            }
        }
        r
    }

    /// Transfer the native asset: the fee shares the input records, so
    /// no separate fee input is needed; the fee change output comes
    /// first, then one output per receiver, then zero-amount padding.
    #[verifier::rlimit(100)]
    #[verifier::spinoff_prover]
    fn transfer_native(
        &mut self,
        session: &WalletSession,
        receivers: &Vec<(u64, u64)>,
        fee: u64,
    ) -> (r: Result<TransactionBundle, WalletError>)
        requires
            old(self).wf(),
            receivers_total(receivers@, receivers@.len() as int) + fee <= u64::MAX,
            old(self).validator.prev_commit_time + RECORD_HOLD_TIME <= u64::MAX,
            receivers@.len() < usize::MAX - 1,
        ensures
            final(self).wf(),
            final(self).now == old(self).now,
            final(self).validator == old(self).validator,
            final(self).nullifiers == old(self).nullifiers,
            final(self).auditable_assets == old(self).auditable_assets,
            final(self).defined_assets == old(self).defined_assets,
            final(self).proving_keys == old(self).proving_keys,
            final(self).auditor_key_pair == old(self).auditor_key_pair,
            final(self).freezer_key_pair == old(self).freezer_key_pair,
            match r {
                Ok(b) => transfer_bundle_ok(
                    *old(self),
                    *final(self),
                    b,
                    session.key_pair,
                    AssetDefinition::native_spec(),
                    receivers@,
                    fee,
                ),
                Err(e) => eq_mod_rng(*old(self), *final(self)) && xfr_err_ok(
                    *old(self),
                    e,
                    session.key_pair,
                    AssetDefinition::native_spec(),
                    receivers@,
                    fee,
                ),
            },
            old(self).xfr_selection_ok(
                session.key_pair,
                AssetDefinition::native_spec(),
                receivers@,
                fee,
            ) ==> r is Ok,
    {
        let me = self.pub_key(session);
        let native = AssetDefinition::native();
        let ghost rs = receivers@;
        let ghost kslot = WalletState::xfr_slot(me, AssetDefinition::native_spec());

        // Total amount leaving us: every receiver plus the fee.
        let n_recv = receivers.len();
        let mut total: u64 = fee;
        let mut j: usize = 0;
        while j < n_recv
            invariant
                n_recv == rs.len(),
                receivers@ == rs,
                j <= n_recv,
                receivers_total(rs, rs.len() as int) + fee <= u64::MAX,
                total == fee + receivers_total(rs, j as int),
            decreases n_recv - j,
        {
            proof {
                lemma_receivers_total_monotone(rs, j + 1, rs.len() as int);
            }
            total = total + receivers[j].1;
            j += 1;
        }

        // Find input records covering the total.
        let found = self.find_records(NATIVE_ASSET_CODE, me, FreezeFlag::Unfrozen, total, None);
        let (input_records, change) = match found {
            Ok(x) => x,
            Err(e) => {
                proof {
                    assert(xfr_err_ok(
                        *old(self),
                        e,
                        me,
                        AssetDefinition::native_spec(),
                        rs,
                        fee,
                    ));
                }
                return Err(e);
            },
        };
        proof {
            assert(old(self).records_cover(kslot, total, None));
            assert(old(self).selection_post(kslot, total, input_records@, change));
        }
        if input_records.len() > usize::MAX - 2 {
            return Err(WalletError::CryptoError);
        }

        // Outputs for the receivers (fee change comes later, first).
        let mut outputs: Vec<RecordOpening> = Vec::new();
        let mut j2: usize = 0;
        while j2 < n_recv
            invariant
                old(self).wf(),
                self.wf(),
                eq_mod_rng(*old(self), *self),
                native == AssetDefinition::native_spec(),
                kslot == WalletState::xfr_slot(me, AssetDefinition::native_spec()),
                me == session.key_pair,
                n_recv == rs.len(),
                receivers@ == rs,
                total == receivers_total(rs, rs.len() as int) + fee,
                old(self).records_cover(kslot, total, None),
                old(self).selection_post(kslot, total, input_records@, change),
                input_records@.len() <= usize::MAX - 2,
                j2 <= n_recv,
                outputs@.len() == j2,
                forall|m: int|
                    0 <= m < j2 ==> (#[trigger] outputs@[m]).amount == rs[m].1 && outputs@[m].pub_key
                        == rs[m].0 && outputs@[m].asset_def == AssetDefinition::native_spec()
                        && outputs@[m].freeze_flag == FreezeFlag::Unfrozen,
            decreases n_recv - j2,
        {
            let ro = self.new_opening(
                receivers[j2].1,
                &native,
                receivers[j2].0,
                FreezeFlag::Unfrozen,
            );
            outputs.push(ro);
            j2 += 1;
            proof {
                lemma_eq_mod_rng_wf(*old(self), *self);
            }
        }

        // A proving key for this arity; pads `outputs` with dummies.
        let ghost pre_outputs = outputs@;
        let selected = self.xfr_proving_key(me, &native, &input_records, total, &mut outputs, false);
        let _key = match selected {
            Ok(k) => k,
            Err(e) => {
                proof {
                    let csn = old(self).records.cands(
                        kslot,
                        old(self).validator.prev_commit_time,
                    );
                    match e {
                        WalletError::Fragmentation {
                            asset: a,
                            amount: am,
                            suggested_amount: sug,
                            max_records: mr,
                        } => {
                            if !old(self).records.has_exact_spec(
                                kslot,
                                total,
                                old(self).validator.prev_commit_time,
                            ) {
                                lemma_inputs_prefix_sum(input_records@, csn, mr as int);
                                if mr > 0 {
                                    assert(amounts_sum(csn, mr as int) < total);
                                }
                            }
                        },
                        _ => {},
                    }
                    assert(xfr_err_ok(
                        *old(self),
                        e,
                        me,
                        AssetDefinition::native_spec(),
                        rs,
                        fee,
                    ));
                }
                return Err(e);
            },
        };

        // The fee change output, first in the note.
        let fee_change = self.new_opening(change, &native, me, FreezeFlag::Unfrozen);
        proof {
            lemma_eq_mod_rng_wf(*old(self), *self);
        }
        let ghost padded = outputs@;
        let bundle = self.assemble_transfer(
            session,
            NoteKind::Transfer,
            None,
            &input_records,
            fee_change,
            outputs,
            Vec::new(),
        );
        proof {
            assert forall|i: int|
                rs.len() + 1 <= i < bundle.memos@.len() implies ((
            #[trigger] bundle.memos@[i]).ro.amount == 0 || (bundle.memos@[i].ro.pub_key == me
                && bundle.memos@[i].ro.asset_def == AssetDefinition::native_spec())) by {
                let j = i - 1;
                assert(bundle.memos@[j + 1].ro == padded[j]);
                assert(padded[j].amount == 0);
            }
            let nulls = bundle.txn.txn.nullifiers@;
            assert forall|i: int|
                0 <= i < nulls.len() implies {
                let nu = #[trigger] nulls[i];
                &&& old(self).records.recs().contains_key(nu.uid)
                &&& old(self).records.recs()[nu.uid].ro.pub_key == me
                &&& old(self).records.recs()[nu.uid].ro.freeze_flag == FreezeFlag::Unfrozen
                &&& !old(self).records.recs()[nu.uid].on_hold_spec(
                    old(self).validator.prev_commit_time,
                )
                &&& (i == 0 ==> old(self).records.recs()[nu.uid].ro.asset_def.code
                    == NATIVE_ASSET_CODE)
                &&& (i >= 1 ==> old(self).records.recs()[nu.uid].ro.asset_def.code
                    == NATIVE_ASSET_CODE)
            } by {
                assert(nulls[i] == nullify_spec(input_records@[i].0, input_records@[i].1));
                assert(record_key_spec(input_records@[i].0) == kslot);
            }
            // conservation: inputs carry the receivers' total, the fee
            // and the change
            let csn = old(self).records.cands(kslot, old(self).validator.prev_commit_time);
            let m = input_records@.len() as int;
            lemma_spent_eq_inputs(*old(self), nulls, input_records@, m);
            if old(self).records.has_exact_spec(
                kslot,
                total,
                old(self).validator.prev_commit_time,
            ) {
                assert(inputs_total(input_records@, 1) == inputs_total(input_records@, 0)
                    + input_records@[0].0.amount);
                assert(inputs_total(input_records@, m) == total + change);
            } else {
                lemma_inputs_prefix_sum(input_records@, csn, m);
                assert(inputs_total(input_records@, m) == total + change);
            }
            lemma_memo_total(bundle.memos@, padded, fee_change, padded.len() as int);
            lemma_ro_total_zero_tail(padded, n_recv as int, padded.len() as int);
            lemma_ro_total_matches_receivers(padded, rs, n_recv as int);
            assert(memo_total(bundle.memos@, bundle.memos@.len() as int) == change
                + receivers_total(rs, n_recv as int));
            assert(spent_total(*old(self), nulls, nulls.len() as int) == memo_total(
                bundle.memos@,
                bundle.memos@.len() as int,
            ) + fee);
            // the per-asset clauses: the change returns in the fee
            // output, the tail is padding, and the note's arity is the
            // chosen key's
            assert(bundle.memos@[0].ro == fee_change);
            assert(change == old(self).selection_change(kslot, total));
            assert(nulls.len() == input_records@.len());
            assert(input_records@.len() == old(self).selection_size(kslot, total));
            assert forall|i: int|
                rs.len() + 1 <= i < bundle.memos@.len() implies (
            #[trigger] bundle.memos@[i]).ro.amount == 0 by {
                let j = i - 1;
                assert(bundle.memos@[j + 1].ro == padded[j]);
                assert(padded[j].amount == 0);
            }
            assert(pre_outputs.len() == rs.len());
            assert(bundle.memos@.len() == padded.len() + 1);
            assert(old(self).proving_keys.xfr.has_fit(
                nulls.len() as u64,
                (rs.len() + 1) as u64,
            ));
            assert(crate::key_set::chosen_key(
                old(self).proving_keys.xfr,
                nulls.len() as u64,
                (rs.len() + 1) as u64,
            ).num_outputs == bundle.memos@.len());
        }
        Ok(bundle)
    }
}



/// Two receiver lists with equal amounts have equal totals.
pub proof fn lemma_receivers_total_eq(a: Seq<(u64, u64)>, b: Seq<(u64, u64)>, n: int)
    requires
        n <= a.len(),
        n <= b.len(),
        forall|i: int| 0 <= i < n ==> (#[trigger] a[i]).1 == (#[trigger] b[i]).1,
    ensures
        receivers_total(a, n) == receivers_total(b, n),
    decreases n,
{
    if n > 0 {
        lemma_receivers_total_eq(a, b, n - 1);
    }
}

impl WalletState {
    /// The audit memo for a transfer's outputs, revealing of each
    /// output what the asset's policy permits.
    fn build_audit_memo(&self, asset: &AssetDefinition, outputs: &Vec<RecordOpening>) -> (r:
        AuditMemo)
        ensures
            r.auditor_pub_key == asset.policy.auditor_pub_key,
            r.asset_code == asset.code,
            r.outputs@.len() == outputs@.len(),
            forall|i: int|
                0 <= i < outputs@.len() ==> {
                    let d = #[trigger] r.outputs@[i];
                    &&& d.asset_code == outputs@[i].asset_def.code
                    &&& d.user_address == (if asset.policy.reveal_address {
                        Some(outputs@[i].pub_key)
                    } else {
                        None::<u64>
                    })
                    &&& d.amount == (if asset.policy.reveal_amount {
                        Some(outputs@[i].amount)
                    } else {
                        None::<u64>
                    })
                    &&& d.blind == (if asset.policy.reveal_blind {
                        Some(outputs@[i].blind)
                    } else {
                        None::<u64>
                    })
                },
    {
        let mut data: Vec<AuditData> = Vec::new();
        let n = outputs.len();
        let mut i: usize = 0;
        while i < n
            invariant
                n == outputs@.len(),
                i <= n,
                data@.len() == i,
                forall|m: int|
                    0 <= m < i ==> {
                        let d = #[trigger] data@[m];
                        &&& d.asset_code == outputs@[m].asset_def.code
                        &&& d.user_address == (if asset.policy.reveal_address {
                            Some(outputs@[m].pub_key)
                        } else {
                            None::<u64>
                        })
                        &&& d.amount == (if asset.policy.reveal_amount {
                            Some(outputs@[m].amount)
                        } else {
                            None::<u64>
                        })
                        &&& d.blind == (if asset.policy.reveal_blind {
                            Some(outputs@[m].blind)
                        } else {
                            None::<u64>
                        })
                    },
            decreases n - i,
        {
            let ro = &outputs[i];
            data.push(
                AuditData {
                    asset_code: ro.asset_def.code,
                    user_address: if asset.policy.reveal_address {
                        Some(ro.pub_key)
                    } else {
                        None
                    },
                    amount: if asset.policy.reveal_amount {
                        Some(ro.amount)
                    } else {
                        None
                    },
                    blind: if asset.policy.reveal_blind {
                        Some(ro.blind)
                    } else {
                        None
                    },
                },
            );
            i += 1;
        }
        AuditMemo {
            auditor_pub_key: asset.policy.auditor_pub_key,
            asset_code: asset.code,
            outputs: data,
        }
    }

    /// Transfer a non-native asset: a separate native fee input pays
    /// the fee (its change returns automatically); asset change, if
    /// any, returns to us as an explicit output.
    #[verifier::rlimit(100)]
    #[verifier::spinoff_prover]
    fn transfer_non_native(
        &mut self,
        session: &WalletSession,
        asset: &AssetDefinition,
        receivers: &Vec<(u64, u64)>,
        fee: u64,
    ) -> (r: Result<TransactionBundle, WalletError>)
        requires
            old(self).wf(),
            asset.code != NATIVE_ASSET_CODE,
            receivers_total(receivers@, receivers@.len() as int) + fee <= u64::MAX,
            old(self).validator.prev_commit_time + RECORD_HOLD_TIME <= u64::MAX,
            receivers@.len() < usize::MAX - 2,
        ensures
            final(self).wf(),
            final(self).now == old(self).now,
            final(self).validator == old(self).validator,
            final(self).nullifiers == old(self).nullifiers,
            final(self).auditable_assets == old(self).auditable_assets,
            final(self).defined_assets == old(self).defined_assets,
            final(self).proving_keys == old(self).proving_keys,
            final(self).auditor_key_pair == old(self).auditor_key_pair,
            final(self).freezer_key_pair == old(self).freezer_key_pair,
            match r {
                Ok(b) => transfer_bundle_ok(
                    *old(self),
                    *final(self),
                    b,
                    session.key_pair,
                    *asset,
                    receivers@,
                    fee,
                ),
                Err(e) => eq_mod_rng(*old(self), *final(self)) && xfr_err_ok(
                    *old(self),
                    e,
                    session.key_pair,
                    *asset,
                    receivers@,
                    fee,
                ),
            },
            old(self).xfr_selection_ok(session.key_pair, *asset, receivers@, fee) ==> r is Ok,
    {
        let me = self.pub_key(session);
        let native = AssetDefinition::native();
        let ghost rs = receivers@;
        let ghost kslot = WalletState::xfr_slot(me, *asset);

        let n_recv = receivers.len();
        let mut total: u64 = 0;
        let mut j: usize = 0;
        while j < n_recv
            invariant
                n_recv == rs.len(),
                receivers@ == rs,
                j <= n_recv,
                receivers_total(rs, rs.len() as int) + fee <= u64::MAX,
                total == receivers_total(rs, j as int),
            decreases n_recv - j,
        {
            proof {
                lemma_receivers_total_monotone(rs, j + 1, rs.len() as int);
            }
            total = total + receivers[j].1;
            j += 1;
        }

        let found = self.find_records(asset.code, me, FreezeFlag::Unfrozen, total, None);
        let (input_records, change) = match found {
            Ok(x) => x,
            Err(e) => {
                proof {
                    assert(xfr_err_ok(*old(self), e, me, *asset, rs, fee));
                }
                return Err(e);
            },
        };
        proof {
            assert(old(self).records_cover(kslot, total, None));
            assert(old(self).selection_post(kslot, total, input_records@, change));
        }
        if input_records.len() > usize::MAX - 2 {
            return Err(WalletError::CryptoError);
        }

        // Outputs: one per receiver, then asset change to us if any.
        let mut outputs: Vec<RecordOpening> = Vec::new();
        let mut j2: usize = 0;
        while j2 < n_recv
            invariant
                old(self).wf(),
                self.wf(),
                eq_mod_rng(*old(self), *self),
                kslot == WalletState::xfr_slot(me, *asset),
                me == session.key_pair,
                asset.code != NATIVE_ASSET_CODE,
                total == receivers_total(rs, rs.len() as int),
                receivers_total(rs, rs.len() as int) + fee <= u64::MAX,
                old(self).records_cover(kslot, total, None),
                old(self).selection_post(kslot, total, input_records@, change),
                input_records@.len() <= usize::MAX - 2,
                n_recv == rs.len(),
                receivers@ == rs,
                j2 <= n_recv,
                outputs@.len() == j2,
                forall|m: int|
                    0 <= m < j2 ==> (#[trigger] outputs@[m]).amount == rs[m].1 && outputs@[m].pub_key
                        == rs[m].0 && outputs@[m].asset_def == *asset && outputs@[m].freeze_flag
                        == FreezeFlag::Unfrozen,
            decreases n_recv - j2,
        {
            let ro = self.new_opening(receivers[j2].1, asset, receivers[j2].0, FreezeFlag::Unfrozen);
            outputs.push(ro);
            j2 += 1;
            proof {
                lemma_eq_mod_rng_wf(*old(self), *self);
            }
        }
        let change_record = change > 0;
        if change_record {
            let change_ro = self.new_opening(change, asset, me, FreezeFlag::Unfrozen);
            outputs.push(change_ro);
            proof {
                lemma_eq_mod_rng_wf(*old(self), *self);
            }
        }

        // The native fee input.
        let fee_found = self.find_native_record_for_fee(session, fee);
        let (fee_ro, fee_uid) = match fee_found {
            Ok(x) => x,
            Err(e) => {
                proof {
                    assert(xfr_err_ok(*old(self), e, me, *asset, rs, fee));
                }
                return Err(e);
            },
        };

        let ghost pre_outputs = outputs@;
        let selected = self.xfr_proving_key(
            me,
            asset,
            &input_records,
            total,
            &mut outputs,
            change_record,
        );
        let _key = match selected {
            Ok(k) => k,
            Err(e) => {
                proof {
                    let csn = old(self).records.cands(
                        kslot,
                        old(self).validator.prev_commit_time,
                    );
                    match e {
                        WalletError::Fragmentation {
                            asset: a,
                            amount: am,
                            suggested_amount: sug,
                            max_records: mr,
                        } => {
                            if !old(self).records.has_exact_spec(
                                kslot,
                                total,
                                old(self).validator.prev_commit_time,
                            ) {
                                lemma_inputs_prefix_sum(input_records@, csn, mr as int);
                                if mr > 0 {
                                    assert(amounts_sum(csn, mr as int) < total);
                                }
                            }
                        },
                        _ => {},
                    }
                    assert(xfr_err_ok(*old(self), e, me, *asset, rs, fee));
                }
                return Err(e);
            },
        };

        // The audit memo, when the asset has an auditor.
        let audit_memo = if asset.policy.auditor_pub_key != 0 {
            Some(self.build_audit_memo(asset, &outputs))
        } else {
            None
        };

        let fee_change = self.new_opening(fee_ro.amount - fee, &native, me, FreezeFlag::Unfrozen);
        proof {
            lemma_eq_mod_rng_wf(*old(self), *self);
        }

        // All inputs, the fee input leading.
        let mut all_inputs: Vec<(RecordOpening, u64)> = Vec::new();
        all_inputs.push((fee_ro, fee_uid));
        let ilen = input_records.len();
        let mut i2: usize = 0;
        while i2 < ilen
            invariant
                old(self).wf(),
                self.wf(),
                eq_mod_rng(*old(self), *self),
                kslot == WalletState::xfr_slot(me, *asset),
                me == session.key_pair,
                total == receivers_total(rs, rs.len() as int),
                receivers_total(rs, rs.len() as int) + fee <= u64::MAX,
                n_recv == rs.len(),
                receivers@ == rs,
                old(self).records_cover(kslot, total, None),
                old(self).selection_post(kslot, total, input_records@, change),
                change_record == (change > 0),
                outputs@.len() >= n_recv + (if change_record {
                    1int
                } else {
                    0int
                }),
                forall|j: int| 0 <= j < n_recv ==> (#[trigger] outputs@[j]).amount == rs[j].1,
                change_record ==> (outputs@[n_recv as int].amount == change
                    && outputs@[n_recv as int].pub_key == me && outputs@[n_recv as int].asset_def
                    == *asset),
                forall|j: int|
                    n_recv + (if change_record {
                        1int
                    } else {
                        0int
                    }) <= j < outputs@.len() ==> (#[trigger] outputs@[j]).amount == 0,
                fee_change.amount == fee_ro.amount - fee,
                ilen == input_records@.len(),
                i2 <= ilen,
                all_inputs@.len() == 1 + i2,
                all_inputs@[0] == (fee_ro, fee_uid),
                forall|m: int| 0 <= m < i2 ==> #[trigger] all_inputs@[m + 1] == input_records@[m],
                forall|m: int, m2: int|
                    0 <= m < m2 < ilen ==> (#[trigger] input_records@[m]).1 != (
                    #[trigger] input_records@[m2]).1,
                forall|m: int|
                    0 <= m < ilen ==> self.records.recs().contains_key(
                        (#[trigger] input_records@[m]).1,
                    ) && input_records@[m].0 == self.records.recs()[input_records@[m].1].ro
                        && !self.records.recs()[input_records@[m].1].on_hold_spec(
                        self.validator.prev_commit_time,
                    ) && record_key_spec(input_records@[m].0) == kslot,
                self.records.recs().contains_key(fee_uid),
                fee_ro == self.records.recs()[fee_uid].ro,
                !self.records.recs()[fee_uid].on_hold_spec(self.validator.prev_commit_time),
                record_key_spec(fee_ro) == WalletState::native_fee_slot(me),
                asset.code != NATIVE_ASSET_CODE,
            decreases ilen - i2,
        {
            all_inputs.push(input_records[i2]);
            i2 += 1;
        }
        proof {
            // the fee record is native, the asset inputs are not, so
            // their uids differ
            assert forall|a: int, b2: int|
                0 <= a < b2 < all_inputs@.len() implies (#[trigger] all_inputs@[a]).1 != (
            #[trigger] all_inputs@[b2]).1 by {
                if a == 0 {
                    let m2 = b2 - 1;
                    assert(all_inputs@[m2 + 1] == input_records@[m2]);
                    if all_inputs@[b2].1 == fee_uid {
                        assert(record_key_spec(self.records.recs()[fee_uid].ro).asset_code
                            == NATIVE_ASSET_CODE);
                        assert(record_key_spec(input_records@[m2].0).asset_code == asset.code);
                        assert(input_records@[m2].0 == self.records.recs()[fee_uid].ro);
                    }
                } else {
                    let m = a - 1;
                    let m2 = b2 - 1;
                    assert(all_inputs@[m + 1] == input_records@[m]);
                    assert(all_inputs@[m2 + 1] == input_records@[m2]);
                    assert(input_records@[m].1 != input_records@[m2].1);
                }
            }
            assert forall|a: int|
                0 <= a < all_inputs@.len() implies self.records.recs().contains_key(
                (#[trigger] all_inputs@[a]).1,
            ) && all_inputs@[a].0 == self.records.recs()[all_inputs@[a].1].ro
                && !self.records.recs()[all_inputs@[a].1].on_hold_spec(
                self.validator.prev_commit_time,
            ) by {
                if a > 0 {
                    let m = a - 1;
                    assert(all_inputs@[m + 1] == input_records@[m]);
                }
            }
        }
        let ghost padded = outputs@;
        let bundle = self.assemble_transfer(
            session,
            NoteKind::Transfer,
            audit_memo,
            &all_inputs,
            fee_change,
            outputs,
            Vec::new(),
        );
        proof {
            assert forall|i3: int|
                rs.len() + 1 <= i3 < bundle.memos@.len() implies ((
            #[trigger] bundle.memos@[i3]).ro.amount == 0 || (bundle.memos@[i3].ro.pub_key == me
                && bundle.memos@[i3].ro.asset_def == *asset)) by {
                let j3 = i3 - 1;
                assert(bundle.memos@[j3 + 1].ro == padded[j3]);
            }
            assert forall|j3: int|
                0 <= j3 < rs.len() implies (#[trigger] bundle.memos@[j3 + 1]).ro.amount == rs[j3].1
                && bundle.memos@[j3 + 1].ro.pub_key == rs[j3].0 && bundle.memos@[j3 + 1].ro.asset_def
                == *asset && bundle.memos@[j3 + 1].ro.freeze_flag == FreezeFlag::Unfrozen by {
                assert(bundle.memos@[j3 + 1].ro == padded[j3]);
            }
            let nulls = bundle.txn.txn.nullifiers@;
            assert forall|i3: int|
                0 <= i3 < nulls.len() implies {
                let nu = #[trigger] nulls[i3];
                &&& old(self).records.recs().contains_key(nu.uid)
                &&& old(self).records.recs()[nu.uid].ro.pub_key == me
                &&& old(self).records.recs()[nu.uid].ro.freeze_flag == FreezeFlag::Unfrozen
                &&& !old(self).records.recs()[nu.uid].on_hold_spec(
                    old(self).validator.prev_commit_time,
                )
                &&& (i3 == 0 ==> old(self).records.recs()[nu.uid].ro.asset_def.code
                    == NATIVE_ASSET_CODE)
                &&& (i3 >= 1 ==> old(self).records.recs()[nu.uid].ro.asset_def.code == asset.code)
            } by {
                assert(nulls[i3] == nullify_spec(all_inputs@[i3].0, all_inputs@[i3].1));
                if i3 == 0 {
                    assert(all_inputs@[0] == (fee_ro, fee_uid));
                    assert(record_key_spec(fee_ro) == WalletState::native_fee_slot(me));
                } else {
                    let m3 = i3 - 1;
                    assert(all_inputs@[m3 + 1] == input_records@[m3]);
                    assert(record_key_spec(input_records@[m3].0) == kslot);
                }
            }
            // conservation
            let csn = old(self).records.cands(kslot, old(self).validator.prev_commit_time);
            let m = input_records@.len() as int;
            lemma_spent_eq_inputs(*old(self), nulls, all_inputs@, nulls.len() as int);
            lemma_inputs_total_shift(all_inputs@, input_records@, m);
            if old(self).records.has_exact_spec(
                kslot,
                total,
                old(self).validator.prev_commit_time,
            ) {
                assert(inputs_total(input_records@, 1) == inputs_total(input_records@, 0)
                    + input_records@[0].0.amount);
                assert(inputs_total(input_records@, m) == total + change);
            } else {
                lemma_inputs_prefix_sum(input_records@, csn, m);
                assert(inputs_total(input_records@, m) == total + change);
            }
            lemma_memo_total(bundle.memos@, padded, fee_change, padded.len() as int);
            let head: int = n_recv + (if change_record {
                1int
            } else {
                0int
            });
            lemma_ro_total_zero_tail(padded, head, padded.len() as int);
            if change_record {
                assert(ro_total(padded, head) == ro_total(padded, head - 1) + padded[head
                    - 1].amount);
            }
            lemma_ro_total_matches_receivers(padded, rs, n_recv as int);
            assert(spent_total(*old(self), nulls, nulls.len() as int) == memo_total(
                bundle.memos@,
                bundle.memos@.len() as int,
            ) + fee);
            // the per-asset clauses: the fee input pays the fee alone,
            // the asset inputs pay the receivers and the change output,
            // and the note's arity is the chosen key's
            let nch: int = if change_record {
                1int
            } else {
                0int
            };
            assert(bundle.memos@[0].ro == fee_change);
            assert(nulls[0] == nullify_spec(fee_ro, fee_uid));
            assert(old(self).records.recs()[nulls[0].uid].ro == fee_ro);
            assert(change == old(self).selection_change(kslot, total));
            assert(nulls.len() == input_records@.len() + 1);
            assert(input_records@.len() == old(self).selection_size(kslot, total));
            assert(inputs_total(all_inputs@, 1 + m) == fee_ro.amount + inputs_total(
                input_records@,
                m,
            ));
            assert(spent_total(*old(self), nulls, nulls.len() as int) == fee_ro.amount + total
                + change);
            if change_record {
                assert(bundle.memos@[rs.len() as int + 1].ro == padded[n_recv as int]);
            }
            assert forall|i: int|
                rs.len() + 1 + nch <= i < bundle.memos@.len() implies (
            #[trigger] bundle.memos@[i]).ro.amount == 0 by {
                let j = i - 1;
                assert(bundle.memos@[j + 1].ro == padded[j]);
                assert(padded[j].amount == 0);
            }
            assert(pre_outputs.len() == rs.len() + nch);
            assert(bundle.memos@.len() == padded.len() + 1);
            assert(old(self).proving_keys.xfr.has_fit(
                nulls.len() as u64,
                (rs.len() + 1 + nch) as u64,
            ));
            assert(crate::key_set::chosen_key(
                old(self).proving_keys.xfr,
                nulls.len() as u64,
                (rs.len() + 1 + nch) as u64,
            ).num_outputs == bundle.memos@.len());
        }
        Ok(bundle)
    }

    /// Transfer `receivers` their amounts of `asset`, paying `fee` in
    /// the native asset. Receiver addresses are resolved through the
    /// backend directory.
    pub fn transfer(
        &mut self,
        session: &WalletSession,
        asset: &AssetDefinition,
        receivers: &Vec<(u64, u64)>,
        fee: u64,
    ) -> (r: Result<TransactionBundle, WalletError>)
        requires
            old(self).wf(),
            session.wf(),
            receivers_total(receivers@, receivers@.len() as int) + fee <= u64::MAX,
            old(self).validator.prev_commit_time + RECORD_HOLD_TIME <= u64::MAX,
            receivers@.len() < usize::MAX - 2,
            asset.code == NATIVE_ASSET_CODE ==> *asset == AssetDefinition::native_spec(),
        ensures
            final(self).wf(),
            final(self).now == old(self).now,
            final(self).validator == old(self).validator,
            final(self).nullifiers == old(self).nullifiers,
            final(self).auditable_assets == old(self).auditable_assets,
            final(self).defined_assets == old(self).defined_assets,
            final(self).proving_keys == old(self).proving_keys,
            final(self).auditor_key_pair == old(self).auditor_key_pair,
            final(self).freezer_key_pair == old(self).freezer_key_pair,
            match r {
                Ok(b) => (forall|j: int|
                    0 <= j < receivers@.len() ==> session.address_book@.contains_key(
                        (#[trigger] receivers@[j]).0,
                    )) && transfer_bundle_ok(
                    *old(self),
                    *final(self),
                    b,
                    session.key_pair,
                    *asset,
                    resolve_spec(session.address_book@, receivers@),
                    fee,
                ),
                Err(e) => match e {
                    WalletError::InvalidAddress { address } => eq_mod_rng(*old(self), *final(self))
                        && !session.address_book@.contains_key(address) && (exists|j: int|
                        0 <= j < receivers@.len() && (#[trigger] receivers@[j]).0 == address),
                    _ => eq_mod_rng(*old(self), *final(self)) && xfr_err_ok(
                        *old(self),
                        e,
                        session.key_pair,
                        *asset,
                        resolve_spec(session.address_book@, receivers@),
                        fee,
                    ),
                },
            },
            ((forall|j: int|
                0 <= j < receivers@.len() ==> session.address_book@.contains_key(
                    (#[trigger] receivers@[j]).0,
                )) && old(self).xfr_selection_ok(
                session.key_pair,
                *asset,
                resolve_spec(session.address_book@, receivers@),
                fee,
            )) ==> r is Ok,
    {
        let ghost rs = receivers@;
        let n = receivers.len();
        let mut resolved: Vec<(u64, u64)> = Vec::new();
        let mut i: usize = 0;
        while i < n
            invariant
                *self == *old(self),
                old(self).wf(),
                session.wf(),
                n == rs.len(),
                receivers@ == rs,
                i <= n,
                resolved@.len() == i,
                forall|j: int|
                    0 <= j < i ==> session.address_book@.contains_key((#[trigger] rs[j]).0)
                        && resolved@[j] == (session.address_book@[rs[j].0], rs[j].1),
            decreases n - i,
        {
            let rcv = receivers[i];
            match session.get_public_key(rcv.0) {
                Ok(k) => {
                    resolved.push((k, rcv.1));
                },
                Err(e) => {
                    proof {
                        assert(rs[i as int].0 == rcv.0);
                    }
                    return Err(e);
                },
            }
            i += 1;
        }
        proof {
            assert(resolved@ =~= resolve_spec(session.address_book@, rs));
            lemma_receivers_total_eq(resolved@, rs, rs.len() as int);
        }
        if asset.code == NATIVE_ASSET_CODE {
            proof {
                assert(*asset == AssetDefinition::native_spec());
            }
            self.transfer_native(session, &resolved, fee)
        } else {
            self.transfer_non_native(session, asset, &resolved, fee)
        }
    }
}



/// Flipped outputs carry exactly their inputs' amounts.
pub proof fn lemma_ro_total_matches_inputs(
    s: Seq<RecordOpening>,
    v: Seq<(RecordOpening, u64)>,
    n: int,
)
    requires
        0 <= n <= s.len(),
        n <= v.len(),
        forall|j: int| 0 <= j < n ==> (#[trigger] s[j]).amount == v[j].0.amount,
    ensures
        ro_total(s, n) == inputs_total(v, n),
    decreases n,
{
    if n > 0 {
        lemma_ro_total_matches_inputs(s, v, n - 1);
    }
}

/// What a successfully built freeze (or unfreeze) bundle looks like: a
/// freeze note whose outputs after the fee change mirror the inputs
/// with the requested flag, the whole carried in the pending index so
/// a commit can pick the freezable outputs back up.
pub open spec fn freeze_bundle_ok(
    pre: WalletState,
    post: WalletState,
    b: TransactionBundle,
    me: u64,
    owner_key: u64,
    asset: AssetDefinition,
    amount: u64,
    outputs_frozen: FreezeFlag,
    fee: u64,
) -> bool {
    &&& b.txn.txn.kind == NoteKind::Freeze
    // only the asset's freezer can build this bundle
    &&& freeze_key_ok(pre, asset)
    // the fee input is our native record; every other input is one of
    // the owner's records of the asset, carrying the opposite flag
    &&& forall|i: int|
        0 <= i < b.txn.txn.nullifiers@.len() ==> {
            let nu = #[trigger] b.txn.txn.nullifiers@[i];
            &&& pre.records.recs().contains_key(nu.uid)
            &&& !pre.records.recs()[nu.uid].on_hold_spec(pre.validator.prev_commit_time)
            &&& (i == 0 ==> pre.records.recs()[nu.uid].ro.asset_def.code == NATIVE_ASSET_CODE
                && pre.records.recs()[nu.uid].ro.pub_key == me
                && pre.records.recs()[nu.uid].ro.freeze_flag == FreezeFlag::Unfrozen)
            &&& (i >= 1 ==> pre.records.recs()[nu.uid].ro.asset_def.code == asset.code
                && pre.records.recs()[nu.uid].ro.pub_key == owner_key
                && pre.records.recs()[nu.uid].ro.freeze_flag == outputs_frozen.flip_spec())
        }
    // at least the requested amount changes flag, and value is
    // conserved up to the fee
    &&& spent_total(pre, b.txn.txn.nullifiers@, b.txn.txn.nullifiers@.len() as int)
        - pre.records.recs()[b.txn.txn.nullifiers@[0].uid].ro.amount >= amount
    &&& spent_total(pre, b.txn.txn.nullifiers@, b.txn.txn.nullifiers@.len() as int) == memo_total(
        b.memos@,
        b.memos@.len() as int,
    ) + fee
    &&& b.txn.txn.record_root == pre.validator.record_root
    &&& b.memos@.len() == b.txn.txn.output_commitments@.len()
    &&& b.memos@.len() == b.txn.txn.nullifiers@.len()
    &&& b.txn.txn.nullifiers@.len() > 1
    &&& forall|i: int|
        0 <= i < b.memos@.len() ==> (#[trigger] b.txn.txn.output_commitments@[i]).ro
            == b.memos@[i].ro
    &&& forall|i: int|
        1 <= i < b.memos@.len() ==> (#[trigger] b.memos@[i]).ro.freeze_flag == outputs_frozen
            && b.memos@[i].ro.asset_def.code == asset.code && b.memos@[i].ro.amount
            == pre.records.recs()[(b.txn.txn.nullifiers@[i]).uid].ro.amount
            && b.memos@[i].ro.pub_key == pre.records.recs()[(
            b.txn.txn.nullifiers@[i]).uid].ro.pub_key
    &&& b.memos@[0].ro.asset_def == AssetDefinition::native_spec()
    &&& b.sig.key == b.txn.txn.memo_verif_key
    &&& b.sig.memo_count == b.memos@.len()
    &&& b.txn.proofs@.len() == b.txn.txn.nullifiers@.len()
    &&& forall|i: int|
        0 <= i < b.txn.txn.nullifiers@.len() ==> pre.records.nuls().contains_key(
            #[trigger] b.txn.txn.nullifiers@[i],
        )
    &&& post.pending_txns@.contains_key(b.txn.txn.nullifiers@[0])
    &&& ({
        let pt = post.pending_txns@[b.txn.txn.nullifiers@[0]];
        &&& pt.nullifiers@ == b.txn.txn.nullifiers@
        &&& pt.timeout == pre.validator.prev_commit_time + RECORD_HOLD_TIME
        &&& pt.freeze_outputs@.len() + 1 == b.memos@.len()
        &&& forall|i: int|
            0 <= i < pt.freeze_outputs@.len() ==> #[trigger] pt.freeze_outputs@[i] == b.memos@[i
                + 1].ro
    })
    &&& forall|i: int|
        0 <= i < b.txn.txn.nullifiers@.len() ==> post.records.recs()[(
        #[trigger] b.txn.txn.nullifiers@[i]).uid].hold_until == Some(
            (pre.validator.prev_commit_time + RECORD_HOLD_TIME) as u64,
        )
    &&& forall|u: u64|
        #[trigger] post.records.recs().contains_key(u) <==> pre.records.recs().contains_key(u)
    &&& forall|u: u64|
        (#[trigger] pre.records.recs().contains_key(u) && (forall|m: int|
            0 <= m < b.txn.txn.nullifiers@.len() ==> (#[trigger] b.txn.txn.nullifiers@[m]).uid
                != u)) ==> post.records.recs()[u] == pre.records.recs()[u]
}

/// The slot a freeze (or unfreeze) of `asset` held by `owner_key`
/// draws its inputs from: the records with the opposite flag.
pub open spec fn freeze_slot(
    asset: AssetDefinition,
    owner_key: u64,
    outputs_frozen: FreezeFlag,
) -> RecordKey {
    RecordKey { asset_code: asset.code, owner: owner_key, frozen: outputs_frozen.flip_spec() }
}

/// Does this wallet hold the freezer role for the asset?
pub open spec fn freeze_key_ok(pre: WalletState, asset: AssetDefinition) -> bool {
    pre.freezer_key_pair != 0 && pre.freezer_key_pair == asset.policy.freezer_pub_key
        && asset.code != NATIVE_ASSET_CODE
}

/// The whole chain of a freeze (or unfreeze) can succeed.
pub open spec fn freeze_selection_ok(
    pre: WalletState,
    session: WalletSession,
    fee: u64,
    asset: AssetDefinition,
    amount: u64,
    owner: u64,
    outputs_frozen: FreezeFlag,
) -> bool {
    &&& freeze_key_ok(pre, asset)
    &&& session.address_book@.contains_key(owner)
    &&& ({
        let k = freeze_slot(asset, session.address_book@[owner], outputs_frozen);
        let m = pre.selection_size(k, amount);
        &&& pre.records_cover(k, amount, None)
        &&& m <= usize::MAX - 2
        &&& pre.records_cover(WalletState::native_fee_slot(session.key_pair), fee, Some(1usize))
        &&& pre.proving_keys.freeze.has_fit((m + 1) as u64, (m + 1) as u64)
        &&& crate::key_set::chosen_key(
            pre.proving_keys.freeze,
            (m + 1) as u64,
            (m + 1) as u64,
        ).num_inputs == m + 1
    })
}

/// The conditions under which a freeze (or unfreeze) fails, each error
/// tied to the stage that produces it.
pub open spec fn freeze_fail_ok(
    pre: WalletState,
    e: WalletError,
    session: WalletSession,
    fee: u64,
    asset: AssetDefinition,
    amount: u64,
    owner: u64,
    outputs_frozen: FreezeFlag,
) -> bool {
    let key_ok = freeze_key_ok(pre, asset);
    let addr_ok = session.address_book@.contains_key(owner);
    let okey = session.address_book@[owner];
    let k = freeze_slot(asset, okey, outputs_frozen);
    let now = pre.validator.prev_commit_time;
    let cs = pre.records.cands(k, now);
    let m = pre.selection_size(k, amount);
    let covered = pre.records_cover(k, amount, None);
    let fee_cov = pre.records_cover(WalletState::native_fee_slot(session.key_pair), fee, Some(1usize));
    let keys = pre.proving_keys.freeze;
    match e {
        WalletError::InvalidFreezerKey { my_key, asset_key } => my_key == pre.freezer_key_pair
            && asset_key == asset.policy.freezer_pub_key && !key_ok,
        WalletError::InvalidAddress { address } => key_ok && address == owner && !addr_ok,
        WalletError::InsufficientBalance { asset: a, required, actual } => key_ok && addr_ok && ((a
            == asset.code && required == amount && !covered && actual == amounts_sum(
            cs,
            cs.len() as int,
        )) || (covered && m <= usize::MAX - 2 && fee_err_ok(pre, e, session.key_pair, fee))),
        WalletError::Fragmentation { asset: a, amount: am, suggested_amount: sug, max_records: mr,
        } => key_ok && addr_ok && ((covered && m <= usize::MAX - 2 && fee_err_ok(
            pre,
            e,
            session.key_pair,
            fee,
        )) || (a == asset.code && am == amount && covered && m <= usize::MAX - 2 && fee_cov
            && !keys.has_fit((m + 1) as u64, (m + 1) as u64) && (mr + 1
            == keys.max_inputs_for_spec((m + 1) as u64) || (mr == 0 && keys.max_inputs_for_spec(
            (m + 1) as u64,
        ) <= 1)) && mr < m && sug == amounts_sum(cs, mr as int))),
        WalletError::CryptoError => key_ok && addr_ok && covered && (m > usize::MAX - 2 || (fee_cov
            && keys.has_fit((m + 1) as u64, (m + 1) as u64) && crate::key_set::chosen_key(
            keys,
            (m + 1) as u64,
            (m + 1) as u64,
        ).num_inputs > m + 1)),
        _ => false,
    }
}

impl WalletState {
    /// Mint `amount` of an asset we defined, sending it to `owner` and
    /// paying `fee` in the native asset.
    pub fn mint(
        &mut self,
        session: &WalletSession,
        fee: u64,
        asset_code: u64,
        amount: u64,
        owner: u64,
    ) -> (r: Result<TransactionBundle, WalletError>)
        requires
            old(self).wf(),
            session.wf(),
            old(self).validator.prev_commit_time + RECORD_HOLD_TIME <= u64::MAX,
        ensures
            final(self).wf(),
            final(self).now == old(self).now,
            final(self).validator == old(self).validator,
            final(self).nullifiers == old(self).nullifiers,
            final(self).auditable_assets == old(self).auditable_assets,
            final(self).defined_assets == old(self).defined_assets,
            final(self).proving_keys == old(self).proving_keys,
            final(self).auditor_key_pair == old(self).auditor_key_pair,
            final(self).freezer_key_pair == old(self).freezer_key_pair,
            match r {
                Ok(b) => {
                    &&& old(self).defined_assets@.contains_key(asset_code)
                    &&& session.address_book@.contains_key(owner)
                    &&& b.txn.txn.kind == NoteKind::Mint
                    &&& b.memos@.len() == 2
                    &&& b.txn.txn.output_commitments@.len() == 2
                    &&& forall|i: int|
                        0 <= i < 2 ==> (#[trigger] b.txn.txn.output_commitments@[i]).ro
                            == b.memos@[i].ro
                    &&& b.memos@[1].ro.amount == amount
                    &&& b.memos@[1].ro.pub_key == session.address_book@[owner]
                    &&& b.memos@[1].ro.asset_def == old(self).defined_assets@[asset_code].definition
                    &&& b.memos@[1].ro.freeze_flag == FreezeFlag::Unfrozen
                    &&& b.memos@[0].ro.pub_key == session.key_pair
                    &&& b.memos@[0].ro.asset_def == AssetDefinition::native_spec()
                    &&& b.sig.key == b.txn.txn.memo_verif_key
                    &&& b.sig.memo_count == 2
                    &&& b.txn.txn.nullifiers@.len() == 1
                    &&& b.txn.proofs@.len() == 1
                    &&& old(self).records.nuls().contains_key(b.txn.txn.nullifiers@[0])
                    &&& final(self).pending_txns@.contains_key(b.txn.txn.nullifiers@[0])
                    &&& final(self).pending_txns@[b.txn.txn.nullifiers@[0]].timeout == old(self).validator.prev_commit_time + RECORD_HOLD_TIME
                    // the fee input is our unheld native record, and
                    // its change returns in full
                    &&& old(self).records.recs().contains_key(b.txn.txn.nullifiers@[0].uid)
                    &&& ({
                        let fr = old(self).records.recs()[b.txn.txn.nullifiers@[0].uid].ro;
                        &&& fr.asset_def.code == NATIVE_ASSET_CODE
                        &&& fr.pub_key == session.key_pair
                        &&& fr.freeze_flag == FreezeFlag::Unfrozen
                        &&& fr.amount >= fee
                        &&& !old(self).records.recs()[b.txn.txn.nullifiers@[0].uid].on_hold_spec(
                            old(self).validator.prev_commit_time,
                        )
                        &&& b.memos@[0].ro.amount == fr.amount - fee
                    })
                    &&& b.memos@[0].ro.freeze_flag == FreezeFlag::Unfrozen
                    &&& (forall|u: u64|
                        #[trigger] final(self).records.recs().contains_key(u) <==> old(self).records.recs().contains_key(u))
                    &&& final(self).records.recs()[b.txn.txn.nullifiers@[0].uid].hold_until
                        == Some((old(self).validator.prev_commit_time + RECORD_HOLD_TIME) as u64)
                    &&& (forall|u: u64|
                        (#[trigger] old(self).records.recs().contains_key(u) && u != b.txn.txn.nullifiers@[0].uid)
                            ==> final(self).records.recs()[u] == old(self).records.recs()[u])
                },
                Err(e) => {
                    &&& eq_mod_rng(*old(self), *final(self))
                    &&& match e {
                        WalletError::UndefinedAsset { asset: a } => a == asset_code && old(self).records_cover(
                            Self::native_fee_slot(session.key_pair),
                            fee,
                            Some(1usize),
                        ) && !old(self).defined_assets@.contains_key(asset_code),
                        WalletError::InvalidAddress { address } => address == owner && old(self).records_cover(
                            Self::native_fee_slot(session.key_pair),
                            fee,
                            Some(1usize),
                        ) && old(self).defined_assets@.contains_key(asset_code)
                            && !session.address_book@.contains_key(owner),
                        _ => fee_err_ok(*old(self), e, session.key_pair, fee),
                    }
                },
            },
            (old(self).records_cover(Self::native_fee_slot(session.key_pair), fee, Some(1usize))
                && old(self).defined_assets@.contains_key(asset_code)
                && session.address_book@.contains_key(owner)) ==> r is Ok,
    {
        let me = self.pub_key(session);
        let native = AssetDefinition::native();

        let fee_found = self.find_native_record_for_fee(session, fee);
        let (fee_ro, fee_uid) = match fee_found {
            Ok(x) => x,
            Err(e) => {
                return Err(e);
            },
        };
        let definition = match self.defined_assets.get(&asset_code) {
            Some(d) => d.definition,
            None => {
                return Err(WalletError::UndefinedAsset { asset: asset_code });
            },
        };
        let owner_key = match session.get_public_key(owner) {
            Ok(k) => k,
            Err(e) => {
                return Err(e);
            },
        };
        let mint_record = self.new_opening(amount, &definition, owner_key, FreezeFlag::Unfrozen);
        proof {
            lemma_eq_mod_rng_wf(*old(self), *self);
        }
        // Mints always carry an audit memo for the asset's auditor.
        let audit_memo = if definition.policy.auditor_pub_key != 0 {
            let mut single: Vec<RecordOpening> = Vec::new();
            single.push(mint_record);
            Some(self.build_audit_memo(&definition, &single))
        } else {
            None
        };
        let fee_change = self.new_opening(fee_ro.amount - fee, &native, me, FreezeFlag::Unfrozen);
        proof {
            lemma_eq_mod_rng_wf(*old(self), *self);
        }
        let mut input_records: Vec<(RecordOpening, u64)> = Vec::new();
        input_records.push((fee_ro, fee_uid));
        let mut outputs: Vec<RecordOpening> = Vec::new();
        outputs.push(mint_record);
        let bundle = self.assemble_transfer(
            session,
            NoteKind::Mint,
            audit_memo,
            &input_records,
            fee_change,
            outputs,
            Vec::new(),
        );
        Ok(bundle)
    }

    /// Freeze at least `amount` of `asset` owned by `owner`. We must
    /// hold the asset's freezer key. Freeze transactions make no
    /// change, so the amount frozen may overshoot.
    pub fn freeze(
        &mut self,
        session: &WalletSession,
        fee: u64,
        asset: &AssetDefinition,
        amount: u64,
        owner: u64,
    ) -> (r: Result<TransactionBundle, WalletError>)
        requires
            old(self).wf(),
            session.wf(),
            old(self).validator.prev_commit_time + RECORD_HOLD_TIME <= u64::MAX,
        ensures
            final(self).wf(),
            final(self).now == old(self).now,
            final(self).validator == old(self).validator,
            final(self).nullifiers == old(self).nullifiers,
            final(self).auditable_assets == old(self).auditable_assets,
            final(self).defined_assets == old(self).defined_assets,
            final(self).proving_keys == old(self).proving_keys,
            final(self).auditor_key_pair == old(self).auditor_key_pair,
            final(self).freezer_key_pair == old(self).freezer_key_pair,
            match r {
                Ok(b) => session.address_book@.contains_key(owner) && freeze_bundle_ok(
                    *old(self),
                    *final(self),
                    b,
                    session.key_pair,
                    session.address_book@[owner],
                    *asset,
                    amount,
                    FreezeFlag::Frozen,
                    fee,
                ),
                Err(e) => eq_mod_rng(*old(self), *final(self)) && freeze_fail_ok(
                    *old(self),
                    e,
                    *session,
                    fee,
                    *asset,
                    amount,
                    owner,
                    FreezeFlag::Frozen,
                ),
            },
            freeze_selection_ok(*old(self), *session, fee, *asset, amount, owner, FreezeFlag::Frozen)
                ==> r is Ok,
    {
        self.freeze_or_unfreeze(session, fee, asset, amount, owner, FreezeFlag::Frozen)
    }

    /// Unfreeze at least `amount` of `asset` owned by `owner`,
    /// previously frozen through this wallet's freezer key.
    pub fn unfreeze(
        &mut self,
        session: &WalletSession,
        fee: u64,
        asset: &AssetDefinition,
        amount: u64,
        owner: u64,
    ) -> (r: Result<TransactionBundle, WalletError>)
        requires
            old(self).wf(),
            session.wf(),
            old(self).validator.prev_commit_time + RECORD_HOLD_TIME <= u64::MAX,
        ensures
            final(self).wf(),
            final(self).now == old(self).now,
            final(self).validator == old(self).validator,
            final(self).nullifiers == old(self).nullifiers,
            final(self).auditable_assets == old(self).auditable_assets,
            final(self).defined_assets == old(self).defined_assets,
            final(self).proving_keys == old(self).proving_keys,
            final(self).auditor_key_pair == old(self).auditor_key_pair,
            final(self).freezer_key_pair == old(self).freezer_key_pair,
            match r {
                Ok(b) => session.address_book@.contains_key(owner) && freeze_bundle_ok(
                    *old(self),
                    *final(self),
                    b,
                    session.key_pair,
                    session.address_book@[owner],
                    *asset,
                    amount,
                    FreezeFlag::Unfrozen,
                    fee,
                ),
                Err(e) => eq_mod_rng(*old(self), *final(self)) && freeze_fail_ok(
                    *old(self),
                    e,
                    *session,
                    fee,
                    *asset,
                    amount,
                    owner,
                    FreezeFlag::Unfrozen,
                ),
            },
            freeze_selection_ok(*old(self), *session, fee, *asset, amount, owner, FreezeFlag::Unfrozen)
                ==> r is Ok,
    {
        self.freeze_or_unfreeze(session, fee, asset, amount, owner, FreezeFlag::Unfrozen)
    }

    #[verifier::rlimit(80)]
    #[verifier::spinoff_prover]
    fn freeze_or_unfreeze(
        &mut self,
        session: &WalletSession,
        fee: u64,
        asset: &AssetDefinition,
        amount: u64,
        owner: u64,
        outputs_frozen: FreezeFlag,
    ) -> (r: Result<TransactionBundle, WalletError>)
        requires
            old(self).wf(),
            session.wf(),
            old(self).validator.prev_commit_time + RECORD_HOLD_TIME <= u64::MAX,
        ensures
            final(self).wf(),
            final(self).now == old(self).now,
            final(self).validator == old(self).validator,
            final(self).nullifiers == old(self).nullifiers,
            final(self).auditable_assets == old(self).auditable_assets,
            final(self).defined_assets == old(self).defined_assets,
            final(self).proving_keys == old(self).proving_keys,
            final(self).auditor_key_pair == old(self).auditor_key_pair,
            final(self).freezer_key_pair == old(self).freezer_key_pair,
            match r {
                Ok(b) => session.address_book@.contains_key(owner) && freeze_bundle_ok(
                    *old(self),
                    *final(self),
                    b,
                    session.key_pair,
                    session.address_book@[owner],
                    *asset,
                    amount,
                    outputs_frozen,
                    fee,
                ),
                Err(e) => eq_mod_rng(*old(self), *final(self)) && freeze_fail_ok(
                    *old(self),
                    e,
                    *session,
                    fee,
                    *asset,
                    amount,
                    owner,
                    outputs_frozen,
                ),
            },
            freeze_selection_ok(*old(self), *session, fee, *asset, amount, owner, outputs_frozen)
                ==> r is Ok,
    {
        let me = self.pub_key(session);
        let native = AssetDefinition::native();
        let my_key = self.freezer_key_pair;
        let asset_key = asset.policy.freezer_pub_key;
        // We must hold the asset's freezer role; the native asset has
        // none to hold.
        if my_key == 0 || my_key != asset_key || asset.code == NATIVE_ASSET_CODE {
            return Err(WalletError::InvalidFreezerKey { my_key, asset_key });
        }
        let owner_key = match session.get_public_key(owner) {
            Ok(k) => k,
            Err(e) => {
                return Err(e);
            },
        };
        // Inputs carry the opposite flag of the requested outcome.
        let inputs_frozen = outputs_frozen.flipped();
        let ghost kslot = freeze_slot(*asset, owner_key, outputs_frozen);
        let found = self.find_records(asset.code, owner_key, inputs_frozen, amount, None);
        let (input_records, change) = match found {
            Ok(x) => x,
            Err(e) => {
                proof {
                    assert(freeze_fail_ok(
                        *old(self),
                        e,
                        *session,
                        fee,
                        *asset,
                        amount,
                        owner,
                        outputs_frozen,
                    ));
                }
                return Err(e);
            },
        };
        proof {
            assert(old(self).records_cover(kslot, amount, None));
            assert(old(self).selection_post(kslot, amount, input_records@, change));
        }
        if input_records.len() > usize::MAX - 2 {
            return Err(WalletError::CryptoError);
        }
        let fee_found = self.find_native_record_for_fee(session, fee);
        let (fee_ro, fee_uid) = match fee_found {
            Ok(x) => x,
            Err(e) => {
                proof {
                    assert(freeze_fail_ok(
                        *old(self),
                        e,
                        *session,
                        fee,
                        *asset,
                        amount,
                        owner,
                        outputs_frozen,
                    ));
                }
                return Err(e);
            },
        };
        let selected = self.freeze_proving_key(asset, &input_records, amount);
        let _key = match selected {
            Ok(k) => k,
            Err(e) => {
                proof {
                    let csn = old(self).records.cands(
                        kslot,
                        old(self).validator.prev_commit_time,
                    );
                    match e {
                        WalletError::Fragmentation {
                            asset: a,
                            amount: am,
                            suggested_amount: sug,
                            max_records: mr,
                        } => {
                            lemma_inputs_prefix_sum(input_records@, csn, mr as int);
                            if mr > 0 {
                                assert(!old(self).records.has_exact_spec(
                                    kslot,
                                    amount,
                                    old(self).validator.prev_commit_time,
                                ));
                                assert(amounts_sum(csn, mr as int) < amount);
                            }
                        },
                        _ => {},
                    }
                    assert(freeze_fail_ok(
                        *old(self),
                        e,
                        *session,
                        fee,
                        *asset,
                        amount,
                        owner,
                        outputs_frozen,
                    ));
                }
                return Err(e);
            },
        };

        // The flipped outputs, one per input record.
        let mut outputs: Vec<RecordOpening> = Vec::new();
        let ilen = input_records.len();
        let mut i: usize = 0;
        while i < ilen
            invariant
                old(self).wf(),
                self.wf(),
                eq_mod_rng(*old(self), *self),
                kslot == freeze_slot(*asset, owner_key, outputs_frozen),
                me == session.key_pair,
                old(self).selection_post(kslot, amount, input_records@, change),
                ilen == input_records@.len(),
                i <= ilen,
                outputs@.len() == i,
                forall|m: int|
                    0 <= m < i ==> {
                        let out = #[trigger] outputs@[m];
                        &&& out.amount == input_records@[m].0.amount
                        &&& out.pub_key == input_records@[m].0.pub_key
                        &&& out.asset_def == input_records@[m].0.asset_def
                        &&& out.freeze_flag == outputs_frozen
                    },
            decreases ilen - i,
        {
            let p = input_records[i];
            let out = self.new_opening(p.0.amount, &p.0.asset_def, p.0.pub_key, outputs_frozen);
            outputs.push(out);
            i += 1;
            proof {
                lemma_eq_mod_rng_wf(*old(self), *self);
            }
        }
        let freeze_outputs = crate::types::copy_vec(&outputs);

        let fee_change = self.new_opening(fee_ro.amount - fee, &native, me, FreezeFlag::Unfrozen);
        proof {
            lemma_eq_mod_rng_wf(*old(self), *self);
        }

        let mut all_inputs: Vec<(RecordOpening, u64)> = Vec::new();
        all_inputs.push((fee_ro, fee_uid));
        let mut i2: usize = 0;
        while i2 < ilen
            invariant
                old(self).wf(),
                self.wf(),
                eq_mod_rng(*old(self), *self),
                kslot == freeze_slot(*asset, owner_key, outputs_frozen),
                me == session.key_pair,
                old(self).selection_post(kslot, amount, input_records@, change),
                outputs@.len() == ilen,
                forall|m: int|
                    0 <= m < ilen ==> (#[trigger] outputs@[m]).amount
                        == input_records@[m].0.amount,
                fee_change.amount == fee_ro.amount - fee,
                ilen == input_records@.len(),
                i2 <= ilen,
                all_inputs@.len() == 1 + i2,
                all_inputs@[0] == (fee_ro, fee_uid),
                forall|m: int| 0 <= m < i2 ==> #[trigger] all_inputs@[m + 1] == input_records@[m],
                forall|m: int, m2: int|
                    0 <= m < m2 < ilen ==> (#[trigger] input_records@[m]).1 != (
                    #[trigger] input_records@[m2]).1,
                forall|m: int|
                    0 <= m < ilen ==> self.records.recs().contains_key(
                        (#[trigger] input_records@[m]).1,
                    ) && input_records@[m].0 == self.records.recs()[input_records@[m].1].ro
                        && !self.records.recs()[input_records@[m].1].on_hold_spec(
                        self.validator.prev_commit_time,
                    ) && record_key_spec(input_records@[m].0) == kslot,
                self.records.recs().contains_key(fee_uid),
                fee_ro == self.records.recs()[fee_uid].ro,
                !self.records.recs()[fee_uid].on_hold_spec(self.validator.prev_commit_time),
                record_key_spec(fee_ro) == WalletState::native_fee_slot(me),
                asset.code != NATIVE_ASSET_CODE,
            decreases ilen - i2,
        {
            all_inputs.push(input_records[i2]);
            i2 += 1;
        }
        proof {
            assert forall|a: int, b2: int|
                0 <= a < b2 < all_inputs@.len() implies (#[trigger] all_inputs@[a]).1 != (
            #[trigger] all_inputs@[b2]).1 by {
                if a == 0 {
                    let m2 = b2 - 1;
                    assert(all_inputs@[m2 + 1] == input_records@[m2]);
                    if all_inputs@[b2].1 == fee_uid {
                        assert(record_key_spec(self.records.recs()[fee_uid].ro).asset_code
                            == NATIVE_ASSET_CODE);
                        assert(record_key_spec(input_records@[m2].0).asset_code == asset.code);
                        assert(input_records@[m2].0 == self.records.recs()[fee_uid].ro);
                    }
                } else {
                    let m = a - 1;
                    let m2 = b2 - 1;
                    assert(all_inputs@[m + 1] == input_records@[m]);
                    assert(all_inputs@[m2 + 1] == input_records@[m2]);
                    assert(input_records@[m].1 != input_records@[m2].1);
                }
            }
            assert forall|a: int|
                0 <= a < all_inputs@.len() implies self.records.recs().contains_key(
                (#[trigger] all_inputs@[a]).1,
            ) && all_inputs@[a].0 == self.records.recs()[all_inputs@[a].1].ro
                && !self.records.recs()[all_inputs@[a].1].on_hold_spec(
                self.validator.prev_commit_time,
            ) by {
                if a > 0 {
                    let m = a - 1;
                    assert(all_inputs@[m + 1] == input_records@[m]);
                }
            }
        }
        let ghost outs = outputs@;
        let ghost ins = all_inputs@;
        let bundle = self.assemble_transfer(
            session,
            NoteKind::Freeze,
            None,
            &all_inputs,
            fee_change,
            outputs,
            freeze_outputs,
        );
        proof {
            assert forall|i3: int|
                1 <= i3 < bundle.memos@.len() implies (#[trigger] bundle.memos@[i3]).ro.freeze_flag
                == outputs_frozen && bundle.memos@[i3].ro.asset_def.code == asset.code
                && bundle.memos@[i3].ro.amount == old(self).records.recs()[(
            bundle.txn.txn.nullifiers@[i3]).uid].ro.amount && bundle.memos@[i3].ro.pub_key == old(
            self).records.recs()[(bundle.txn.txn.nullifiers@[i3]).uid].ro.pub_key by {
                let j3 = i3 - 1;
                assert(bundle.memos@[j3 + 1].ro == outs[j3]);
                assert(bundle.txn.txn.nullifiers@[i3] == nullify_spec(ins[i3].0, ins[i3].1));
                assert(ins[j3 + 1] == input_records@[j3]);
                assert(outs[j3].asset_def == input_records@[j3].0.asset_def);
                assert(record_key_spec(input_records@[j3].0) == (RecordKey {
                    asset_code: asset.code,
                    owner: owner_key,
                    frozen: inputs_frozen,
                }));
                assert(input_records@[j3].0.asset_def.code == asset.code);
                assert(old(self).records.recs()[input_records@[j3].1].ro
                    == input_records@[j3].0);
            }
            let nulls = bundle.txn.txn.nullifiers@;
            assert forall|i3: int|
                0 <= i3 < nulls.len() implies {
                let nu = #[trigger] nulls[i3];
                &&& old(self).records.recs().contains_key(nu.uid)
                &&& !old(self).records.recs()[nu.uid].on_hold_spec(
                    old(self).validator.prev_commit_time,
                )
                &&& (i3 == 0 ==> old(self).records.recs()[nu.uid].ro.asset_def.code
                    == NATIVE_ASSET_CODE && old(self).records.recs()[nu.uid].ro.pub_key == me
                    && old(self).records.recs()[nu.uid].ro.freeze_flag == FreezeFlag::Unfrozen)
                &&& (i3 >= 1 ==> old(self).records.recs()[nu.uid].ro.asset_def.code == asset.code
                    && old(self).records.recs()[nu.uid].ro.pub_key == owner_key && old(
                self).records.recs()[nu.uid].ro.freeze_flag == outputs_frozen.flip_spec())
            } by {
                assert(nulls[i3] == nullify_spec(ins[i3].0, ins[i3].1));
                if i3 == 0 {
                    assert(ins[0] == (fee_ro, fee_uid));
                    assert(record_key_spec(fee_ro) == WalletState::native_fee_slot(me));
                } else {
                    let m3 = i3 - 1;
                    assert(ins[m3 + 1] == input_records@[m3]);
                    assert(record_key_spec(input_records@[m3].0) == kslot);
                }
            }
            // conservation, and at least the requested amount flipped
            let csn = old(self).records.cands(kslot, old(self).validator.prev_commit_time);
            let m = input_records@.len() as int;
            lemma_spent_eq_inputs(*old(self), nulls, ins, nulls.len() as int);
            lemma_inputs_total_shift(ins, input_records@, m);
            if old(self).records.has_exact_spec(
                kslot,
                amount,
                old(self).validator.prev_commit_time,
            ) {
                assert(inputs_total(input_records@, 1) == inputs_total(input_records@, 0)
                    + input_records@[0].0.amount);
                assert(inputs_total(input_records@, m) >= amount);
            } else {
                lemma_inputs_prefix_sum(input_records@, csn, m);
                assert(inputs_total(input_records@, m) >= amount);
            }
            lemma_memo_total(bundle.memos@, outs, fee_change, outs.len() as int);
            lemma_ro_total_matches_inputs(outs, input_records@, m);
            assert(spent_total(*old(self), nulls, nulls.len() as int) == memo_total(
                bundle.memos@,
                bundle.memos@.len() as int,
            ) + fee);
            assert(spent_total(*old(self), nulls, nulls.len() as int) - old(
            self).records.recs()[nulls[0].uid].ro.amount >= amount);
        }
        Ok(bundle)
    }
}


impl WalletState {
    /// Derive a random seed, register the asset under its deterministic
    /// code, and, if its policy names us as the auditor, start auditing
    /// it at once.
    pub fn define_asset(&mut self, description: &Vec<u8>, policy: AssetPolicy) -> (r: Result<
        AssetDefinition,
        WalletError,
    >)
        requires
            old(self).wf(),
        ensures
            final(self).wf(),
            final(self).now == old(self).now,
            final(self).validator == old(self).validator,
            final(self).nullifiers == old(self).nullifiers,
            final(self).records == old(self).records,
            final(self).pending_txns == old(self).pending_txns,
            final(self).expiring_txns == old(self).expiring_txns,
            final(self).proving_keys == old(self).proving_keys,
            final(self).auditor_key_pair == old(self).auditor_key_pair,
            final(self).freezer_key_pair == old(self).freezer_key_pair,
            match r {
                Ok(def) => {
                    &&& def.policy == policy
                    &&& final(self).defined_assets@.contains_key(def.code)
                    &&& final(self).defined_assets@[def.code].definition == def
                    &&& final(self).defined_assets@[def.code].description@ == description@
                    &&& def.code == crate::types::asset_code_spec(
                        final(self).defined_assets@[def.code].seed,
                        description@,
                    )
                    &&& forall|c: u64|
                        c != def.code ==> ((#[trigger] final(self).defined_assets@.contains_key(c)
                            <==> old(self).defined_assets@.contains_key(c)) && (old(self).defined_assets@.contains_key(c) ==> final(self).defined_assets@[c] == old(self).defined_assets@[c]))
                    &&& (policy.auditor_pub_key == old(self).auditor_key_pair ==> final(self).auditable_assets@ == old(self).auditable_assets@.insert(def.code, def))
                    &&& (policy.auditor_pub_key != old(self).auditor_key_pair ==> final(self).auditable_assets@ == old(self).auditable_assets@)
                },
                Err(_) => false,
            },
    {
        let seed = rng_next(&mut self.rng);
        let code = derive_asset_code(seed, description);
        let definition = AssetDefinition { code, policy };
        self.defined_assets.insert(
            code,
            DefinedAsset { definition, seed, description: crate::types::copy_vec(description) },
        );
        if policy.auditor_pub_key == self.auditor_key_pair {
            self.auditable_assets.insert(code, definition);
        }
        proof {
            assert(self.wf()) by {
                assert forall|n: Nullifier| #[trigger]
                    self.pending_txns@.contains_key(n) implies self.pending_ok(
                    n,
                    self.pending_txns@[n],
                ) by {
                    assert(old(self).pending_ok(n, old(self).pending_txns@[n]));
                }
            }
        }
        Ok(definition)
    }

    /// Start auditing an externally defined asset. Our auditor key must
    /// match the asset policy's.
    pub fn audit_asset(&mut self, asset: &AssetDefinition) -> (r: Result<(), WalletError>)
        requires
            old(self).wf(),
        ensures
            final(self).wf(),
            final(self).now == old(self).now,
            final(self).validator == old(self).validator,
            final(self).nullifiers == old(self).nullifiers,
            final(self).records == old(self).records,
            final(self).pending_txns == old(self).pending_txns,
            final(self).expiring_txns == old(self).expiring_txns,
            final(self).defined_assets == old(self).defined_assets,
            final(self).proving_keys == old(self).proving_keys,
            final(self).auditor_key_pair == old(self).auditor_key_pair,
            final(self).freezer_key_pair == old(self).freezer_key_pair,
            final(self).rng == old(self).rng,
            match r {
                Ok(_) => asset.policy.auditor_pub_key == old(self).auditor_key_pair && final(self).auditable_assets@ == old(self).auditable_assets@.insert(asset.code, *asset),
                Err(e) => asset.policy.auditor_pub_key != old(self).auditor_key_pair && *final(self) == *old(self) && e == (WalletError::InvalidAuditorKey {
                    my_key: old(self).auditor_key_pair,
                    asset_key: asset.policy.auditor_pub_key,
                }),
            },
    {
        let my_key = self.auditor_key_pair;
        let asset_key = asset.policy.auditor_pub_key;
        if my_key != asset_key {
            return Err(WalletError::InvalidAuditorKey { my_key, asset_key });
        }
        self.auditable_assets.insert(asset.code, *asset);
        proof {
            assert(self.wf()) by {
                assert forall|n: Nullifier| #[trigger]
                    self.pending_txns@.contains_key(n) implies self.pending_ok(
                    n,
                    self.pending_txns@[n],
                ) by {
                    assert(old(self).pending_ok(n, old(self).pending_txns@[n]));
                }
            }
        }
        Ok(())
    }
}


/// Does the list mention this nullifier?
pub open spec fn seq_has_nul(s: Seq<Nullifier>, m: Nullifier) -> bool {
    exists|i: int| 0 <= i < s.len() && #[trigger] s[i] == m
}

/// Remove one occurrence of `n` from a bucket.
fn remove_from_bucket(b: &mut Vec<Nullifier>, n: Nullifier)
    requires
        forall|i: int, j: int| 0 <= i < j < old(b)@.len() ==> old(b)@[i] != old(b)@[j],
    ensures
        forall|i: int, j: int| 0 <= i < j < final(b)@.len() ==> final(b)@[i] != final(b)@[j],
        forall|m: Nullifier|
            #[trigger] seq_has_nul(final(b)@, m) <==> (seq_has_nul(old(b)@, m) && m != n),
{
    let ghost s = b@;
    let n_len = b.len();
    let mut i: usize = 0;
    while i < n_len
        invariant
            n_len == s.len(),
            b@ == s,
            old(b)@ == s,
            i <= n_len,
            forall|p2: int, q: int| 0 <= p2 < q < s.len() ==> s[p2] != s[q],
            forall|j: int| 0 <= j < i ==> s[j] != n,
        decreases n_len - i,
    {
        let e = b[i];
        if e.key_eq(&n) {
            proof {
                assert(s[i as int] == n);
            }
            b.remove(i);
            proof {
                let t = b@;
                assert(t == s.remove(i as int));
                assert forall|p2: int, q: int| 0 <= p2 < q < t.len() implies t[p2] != t[q] by {
                    let p0 = if p2 < i { p2 } else { p2 + 1 };
                    let q0 = if q < i { q } else { q + 1 };
                    assert(t[p2] == s[p0] && t[q] == s[q0]);
                }
                assert forall|m: Nullifier|
                    #[trigger] seq_has_nul(t, m) <==> (seq_has_nul(s, m) && m != n) by {
                    if seq_has_nul(t, m) {
                        let x = choose|x: int| 0 <= x < t.len() && #[trigger] t[x] == m;
                        let x0 = if x < i { x } else { x + 1 };
                        assert(s[x0] == m);
                        if m == n {
                            assert(x0 != i);
                            assert(s[x0] != s[i as int] || x0 == i);
                        }
                    }
                    if seq_has_nul(s, m) && m != n {
                        let x = choose|x: int| 0 <= x < s.len() && #[trigger] s[x] == m;
                        assert(x != i);
                        if x < i {
                            assert(t[x] == m);
                        } else {
                            assert(t[x - 1] == m);
                        }
                    }
                }
            }
            return;
        }
        proof {
            assert(s[i as int] != n);
        }
        i += 1;
    }
    proof {
        assert(b@ == s);
        assert forall|m: Nullifier|
            #[trigger] seq_has_nul(b@, m) <==> (seq_has_nul(s, m) && m != n) by {
            if seq_has_nul(s, m) {
                let x = choose|x: int| 0 <= x < s.len() && #[trigger] s[x] == m;
                if m == n {
                    assert(s[x] != n);
                }
            }
        }
    }
}

impl WalletState {
    /// `wf`, except that a pending transaction's timeout may equal the
    /// validator time: the state between stepping the validator and
    /// clearing the newly expired transactions.
    pub open spec fn wf_loose(&self) -> bool {
        &&& self.records.wf()
        &&& self.validator.wf()
        &&& self.proving_keys.wf()
        &&& self.nullifiers.wf()
        &&& self.nullifiers.version_spec() <= u64::MAX
        &&& self.pending_txns.wf()
        &&& self.expiring_txns.wf()
        &&& self.auditable_assets.wf()
        &&& self.auditable_keyed()
        &&& self.defined_assets.wf()
        &&& self.uids_fresh()
        &&& self.uids_remembered()
        &&& forall|n: Nullifier| #[trigger]
            self.pending_txns@.contains_key(n) ==> self.pending_ok_loose(
                n,
                self.pending_txns@[n],
            )
        &&& self.expiring_wf()
        &&& self.pending_disjoint()
    }

    pub open spec fn pending_ok_loose(&self, n: Nullifier, pt: PendingTransaction) -> bool {
        &&& pt.nullifiers@.len() > 0
        &&& pt.nullifiers@[0] == n
        &&& pt.timeout >= self.validator.prev_commit_time
        &&& forall|i: int, j: int|
            0 <= i < j < pt.nullifiers@.len() ==> pt.nullifiers@[i] != pt.nullifiers@[j]
        &&& forall|i: int|
            0 <= i < pt.nullifiers@.len() ==> (#[trigger] pt.nullifiers@[i]).uid
                < self.validator.record_count
        &&& forall|i: int|
            0 <= i < pt.nullifiers@.len() ==> (self.records.nuls().contains_key(
                #[trigger] pt.nullifiers@[i],
            ) ==> self.records.recs()[pt.nullifiers@[i].uid].hold_until == Some(pt.timeout))
        &&& self.expiring_has(pt.timeout, n)
    }

    /// Every input of every pending transaction sits below `bound` in
    /// the record tree.
    pub open spec fn pending_uids_below(&self, bound: u64) -> bool {
        forall|n: Nullifier, i: int|
            #[trigger] self.pending_txns@.contains_key(n) && 0 <= i
                < self.pending_txns@[n].nullifiers@.len() ==> (
            #[trigger] self.pending_txns@[n].nullifiers@[i]).uid < bound
    }

    /// Drop every transaction whose timeout is the current validator
    /// time: their records' holds have just expired, so they can no
    /// longer commit. Restores the invariant that every pending
    /// transaction's timeout lies strictly in the future.
    fn clear_expired_transactions(&mut self)
        requires
            old(self).wf_loose(),
        ensures
            final(self).wf(),
            final(self).records == old(self).records,
            final(self).validator == old(self).validator,
            final(self).nullifiers == old(self).nullifiers,
            final(self).now == old(self).now,
            final(self).rng == old(self).rng,
            final(self).auditable_assets == old(self).auditable_assets,
            final(self).defined_assets == old(self).defined_assets,
            final(self).proving_keys == old(self).proving_keys,
            final(self).auditor_key_pair == old(self).auditor_key_pair,
            final(self).freezer_key_pair == old(self).freezer_key_pair,
            forall|n: Nullifier|
                #[trigger] final(self).pending_txns@.contains_key(n) <==> (old(self).pending_txns@.contains_key(n) && old(self).pending_txns@[n].timeout != old(self).validator.prev_commit_time),
            forall|n: Nullifier|
                #[trigger] final(self).pending_txns@.contains_key(n) ==> final(self).pending_txns@[n] == old(self).pending_txns@[n],
    {
        let now = self.validator.prev_commit_time;
        let bucket = self.expiring_txns.remove(&now);
        let ghost mid = *self;
        match bucket {
            Some(b) => {
                let blen = b.len();
                let mut i: usize = 0;
                while i < blen
                    invariant
                        old(self).wf_loose(),
                        now == old(self).validator.prev_commit_time,
                        blen == b@.len(),
                        i <= blen,
                        old(self).expiring_txns@.contains_key(now),
                        b == old(self).expiring_txns@[now],
                        self.records == old(self).records,
                        self.validator == old(self).validator,
                        self.nullifiers == old(self).nullifiers,
                        self.now == old(self).now,
                        self.rng == old(self).rng,
                        self.auditable_assets == old(self).auditable_assets,
                        self.defined_assets == old(self).defined_assets,
                        self.proving_keys == old(self).proving_keys,
                        self.auditor_key_pair == old(self).auditor_key_pair,
                        self.freezer_key_pair == old(self).freezer_key_pair,
                        self.expiring_txns.wf(),
                        self.expiring_txns@ == old(self).expiring_txns@.remove(now),
                        self.pending_txns.wf(),
                        forall|n: Nullifier|
                            #[trigger] self.pending_txns@.contains_key(n) <==> (old(self).pending_txns@.contains_key(n) && !(exists|j: int|
                                0 <= j < i && b@[j] == n)),
                        forall|n: Nullifier|
                            #[trigger] self.pending_txns@.contains_key(n) ==> self.pending_txns@[n]
                                == old(self).pending_txns@[n],
                    decreases blen - i,
                {
                    let n = b[i];
                    proof {
                        assert(old(self).expiring_txns@[now]@[i as int] == n);
                        assert(old(self).pending_txns@.contains_key(n));
                        assert(old(self).pending_txns@[n].timeout == now);
                        // the expired record, if still known, is held
                        // exactly until now
                        assert(old(self).pending_ok_loose(n, old(self).pending_txns@[n]));
                        if old(self).records.nuls().contains_key(n) {
                            assert(old(self).records.recs()[n.uid].hold_until == Some(now));
                        }
                    }
                    self.pending_txns.remove(&n);
                    proof {
                        assert forall|n2: Nullifier|
                            #[trigger] self.pending_txns@.contains_key(n2) <==> (old(
                            self).pending_txns@.contains_key(n2) && !(exists|j: int|
                            0 <= j < i + 1 && b@[j] == n2)) by {
                            if old(self).pending_txns@.contains_key(n2) && !(exists|j: int|
                                0 <= j < i + 1 && b@[j] == n2) {
                                assert(b@[i as int] != n2);
                            }
                            if exists|j: int| 0 <= j < i + 1 && b@[j] == n2 {
                                let j = choose|j: int| 0 <= j < i + 1 && b@[j] == n2;
                                if j < i {
                                    assert(!self.pending_txns@.contains_key(n2));
                                }
                            }
                        }
                    }
                    i += 1;
                }
                proof {
                    self.lemma_clear_expired_wf(*old(self), now, b@);
                }
            },
            None => {
                proof {
                    assert forall|n: Nullifier|
                        #[trigger] self.pending_txns@.contains_key(n) <==> (old(
                        self).pending_txns@.contains_key(n) && old(self).pending_txns@[n].timeout
                        != now) by {
                        if old(self).pending_txns@.contains_key(n) && old(
                        self).pending_txns@[n].timeout == now {
                            assert(old(self).pending_ok_loose(n, old(self).pending_txns@[n]));
                            assert(old(self).expiring_has(now, n));
                        }
                    }
                    assert(self.wf()) by {
                        assert forall|n: Nullifier| #[trigger]
                            self.pending_txns@.contains_key(n) implies self.pending_ok(
                            n,
                            self.pending_txns@[n],
                        ) by {
                            let pt = self.pending_txns@[n];
                            assert(old(self).pending_ok_loose(n, pt));
                            assert(old(self).expiring_has(pt.timeout, n));
                            assert(pt.timeout != now);
                            assert(self.expiring_has(pt.timeout, n));
                        }
                        assert forall|t: u64| #[trigger]
                            self.expiring_txns@.contains_key(t) implies (forall|i: int|
                            0 <= i < self.expiring_txns@[t]@.len()
                                ==> self.pending_txns@.contains_key(
                                #[trigger] self.expiring_txns@[t]@[i],
                            ) && self.pending_txns@[self.expiring_txns@[t]@[i]].timeout == t) && (
                        forall|i: int, j: int|
                            0 <= i < j < self.expiring_txns@[t]@.len()
                                ==> self.expiring_txns@[t]@[i] != self.expiring_txns@[t]@[j]) by {
                            assert(old(self).expiring_txns@.contains_key(t));
                            assert(t != now);
                        }
                    }
                }
            },
        }
    }

    /// After popping the expiry bucket for the current time and its
    /// pending entries, the state is strictly well-formed again.
    proof fn lemma_clear_expired_wf(&self, pre: Self, now: u64, b: Seq<Nullifier>)
        requires
            pre.wf_loose(),
            now == pre.validator.prev_commit_time,
            pre.expiring_txns@.contains_key(now),
            b == pre.expiring_txns@[now]@,
            self.records == pre.records,
            self.validator == pre.validator,
            self.nullifiers == pre.nullifiers,
            self.proving_keys == pre.proving_keys,
            self.auditable_assets == pre.auditable_assets,
            self.defined_assets == pre.defined_assets,
            self.expiring_txns.wf(),
            self.expiring_txns@ == pre.expiring_txns@.remove(now),
            self.pending_txns.wf(),
            forall|n: Nullifier|
                #[trigger] self.pending_txns@.contains_key(n) <==> (pre.pending_txns@.contains_key(
                    n,
                ) && !(exists|j: int| 0 <= j < b.len() && b[j] == n)),
            forall|n: Nullifier|
                #[trigger] self.pending_txns@.contains_key(n) ==> self.pending_txns@[n]
                    == pre.pending_txns@[n],
        ensures
            self.wf(),
            forall|n: Nullifier|
                #[trigger] self.pending_txns@.contains_key(n) <==> (pre.pending_txns@.contains_key(
                    n,
                ) && pre.pending_txns@[n].timeout != now),
    {
        assert forall|n: Nullifier|
            #[trigger] self.pending_txns@.contains_key(n) <==> (pre.pending_txns@.contains_key(n)
                && pre.pending_txns@[n].timeout != now) by {
            if pre.pending_txns@.contains_key(n) {
                let pt = pre.pending_txns@[n];
                assert(pre.pending_ok_loose(n, pt));
                if pt.timeout == now {
                    assert(pre.expiring_has(now, n));
                }
                if exists|j: int| 0 <= j < b.len() && b[j] == n {
                    let j = choose|j: int| 0 <= j < b.len() && b[j] == n;
                    assert(pre.expiring_txns@[now]@[j] == n);
                    assert(pre.pending_txns@[b[j]].timeout == now);
                }
            }
        }
        assert forall|n: Nullifier| #[trigger]
            self.pending_txns@.contains_key(n) implies self.pending_ok(
            n,
            self.pending_txns@[n],
        ) by {
            let pt = self.pending_txns@[n];
            assert(pre.pending_ok_loose(n, pt));
            assert(pt.timeout != now);
            assert(pre.expiring_has(pt.timeout, n));
            assert(self.expiring_txns@.contains_key(pt.timeout));
            assert(self.expiring_txns@[pt.timeout] == pre.expiring_txns@[pt.timeout]);
            let i = choose|i: int|
                0 <= i < pre.expiring_txns@[pt.timeout]@.len()
                    && pre.expiring_txns@[pt.timeout]@[i] == n;
            assert(self.expiring_txns@[pt.timeout]@[i] == n);
            assert(self.expiring_has(pt.timeout, n));
        }
        assert forall|t: u64| #[trigger]
            self.expiring_txns@.contains_key(t) implies (forall|i: int|
            0 <= i < self.expiring_txns@[t]@.len() ==> self.pending_txns@.contains_key(
                #[trigger] self.expiring_txns@[t]@[i],
            ) && self.pending_txns@[self.expiring_txns@[t]@[i]].timeout == t) && (forall|
            i: int,
            j: int,
        |
            0 <= i < j < self.expiring_txns@[t]@.len() ==> self.expiring_txns@[t]@[i]
                != self.expiring_txns@[t]@[j]) by {
            assert(t != now);
            assert(pre.expiring_txns@.contains_key(t));
            assert(self.expiring_txns@[t] == pre.expiring_txns@[t]);
            assert forall|i: int|
                0 <= i < self.expiring_txns@[t]@.len() implies self.pending_txns@.contains_key(
                #[trigger] self.expiring_txns@[t]@[i],
            ) && self.pending_txns@[self.expiring_txns@[t]@[i]].timeout == t by {
                let m = self.expiring_txns@[t]@[i];
                assert(pre.expiring_txns@[t]@[i] == m);
                assert(pre.pending_txns@.contains_key(m));
                assert(pre.pending_txns@[m].timeout == t);
            }
        }
        assert forall|n1: Nullifier, n2: Nullifier|
            #[trigger] self.pending_txns@.contains_key(n1)
                && #[trigger] self.pending_txns@.contains_key(n2) && n1 != n2 implies nul_lists_disjoint(
            self.pending_txns@[n1].nullifiers@,
            self.pending_txns@[n2].nullifiers@,
        ) by {
            assert(pre.pending_txns@.contains_key(n1));
            assert(pre.pending_txns@.contains_key(n2));
        }
    }

    /// Insert a record at a uid this block just assigned. Freshness
    /// keeps every pending transaction's holds intact.
    fn register_record(&mut self, ro: RecordOpening, uid: u64, Ghost(fresh_from): Ghost<u64>)
        requires
            old(self).wf(),
            old(self).pending_uids_below(fresh_from),
            fresh_from <= uid,
            uid < old(self).validator.record_count,
            old(self).validator.remembered@.contains_key(uid),
        ensures
            final(self).wf(),
            final(self).pending_uids_below(fresh_from),
            final(self).validator == old(self).validator,
            final(self).nullifiers == old(self).nullifiers,
            final(self).now == old(self).now,
            final(self).rng == old(self).rng,
            final(self).pending_txns == old(self).pending_txns,
            final(self).expiring_txns == old(self).expiring_txns,
            final(self).auditable_assets == old(self).auditable_assets,
            final(self).defined_assets == old(self).defined_assets,
            final(self).proving_keys == old(self).proving_keys,
            final(self).auditor_key_pair == old(self).auditor_key_pair,
            final(self).freezer_key_pair == old(self).freezer_key_pair,
            final(self).records.recs() == old(self).records.recs().insert(
                uid,
                (RecordInfo { ro, uid, hold_until: None }),
            ),
            forall|u: u64|
                u != uid ==> (#[trigger] final(self).records.recs().contains_key(u) <==> old(self).records.recs().contains_key(u)),
    {
        self.records.insert(ro, uid, ro.pub_key);
        proof {
            assert forall|n: Nullifier| #[trigger]
                self.pending_txns@.contains_key(n) implies self.pending_ok(
                n,
                self.pending_txns@[n],
            ) by {
                let pt = self.pending_txns@[n];
                assert(old(self).pending_ok(n, pt));
                assert forall|i: int|
                    0 <= i < pt.nullifiers@.len() && self.records.nuls().contains_key(
                        #[trigger] pt.nullifiers@[i],
                    ) implies self.records.recs()[pt.nullifiers@[i].uid].hold_until == Some(
                    pt.timeout,
                ) by {
                    let m = pt.nullifiers@[i];
                    assert(m.uid < fresh_from);
                    assert(m.uid != uid);
                    assert(m != nullify_spec(ro, uid));
                    assert(old(self).records.nuls().contains_key(m));
                }
                assert(self.expiring_has(pt.timeout, n) == old(self).expiring_has(pt.timeout, n));
            }
        }
    }
}


/// The uid list a block commit hands the per-transaction steps: fresh,
/// distinct, remembered leaves.
pub open spec fn uids_ok(w: WalletState, us: Seq<(u64, bool)>, fresh_from: u64) -> bool {
    &&& forall|j: int|
        0 <= j < us.len() ==> fresh_from <= (#[trigger] us[j]).0 && us[j].0
            < w.validator.record_count && w.validator.remembered@.contains_key(us[j].0)
    &&& forall|i: int, j: int| 0 <= i < j < us.len() ==> (#[trigger] us[i]).0 != (#[trigger] us[j]).0
}

/// What the per-transaction steps never touch.
pub open spec fn phase_frame(pre: WalletState, post: WalletState) -> bool {
    &&& post.validator == pre.validator
    &&& post.nullifiers == pre.nullifiers
    &&& post.now == pre.now
    &&& post.rng == pre.rng
    &&& post.auditable_assets == pre.auditable_assets
    &&& post.defined_assets == pre.defined_assets
    &&& post.proving_keys == pre.proving_keys
    &&& post.auditor_key_pair == pre.auditor_key_pair
    &&& post.freezer_key_pair == pre.freezer_key_pair
}

/// Flags only move from false to true; positions never change.
pub open spec fn uids_evolved(pre_us: Seq<(u64, bool)>, post_us: Seq<(u64, bool)>) -> bool {
    &&& post_us.len() == pre_us.len()
    &&& forall|j: int| 0 <= j < pre_us.len() ==> (#[trigger] post_us[j]).0 == (#[trigger] pre_us[j]).0
    &&& forall|j: int| 0 <= j < pre_us.len() ==> ((#[trigger] pre_us[j]).1 ==> (#[trigger] post_us[j]).1)
}

/// Records below the block's fresh-uid watermark are untouched; a uid
/// whose flag stayed false is exactly as known as before; and nothing
/// outside the transaction's own slice was added.
pub open spec fn records_evolved(
    pre: WalletState,
    post: WalletState,
    pre_us: Seq<(u64, bool)>,
    post_us: Seq<(u64, bool)>,
    fresh_from: u64,
) -> bool {
    &&& forall|u: u64|
        u < fresh_from ==> ((#[trigger] post.records.recs().contains_key(u)
            <==> pre.records.recs().contains_key(u)) && (pre.records.recs().contains_key(u)
            ==> post.records.recs()[u] == pre.records.recs()[u]))
    &&& forall|j: int|
        0 <= j < post_us.len() && !(#[trigger] post_us[j]).1 ==> (post.records.recs().contains_key(
            post_us[j].0,
        ) <==> pre.records.recs().contains_key(post_us[j].0))
    &&& forall|u: u64|
        ((forall|j: int| 0 <= j < post_us.len() ==> (#[trigger] post_us[j]).0 != u) && u
            >= fresh_from) ==> (#[trigger] post.records.recs().contains_key(u)
            <==> pre.records.recs().contains_key(u))
}

impl WalletState {
    /// Remove a pending transaction and its expiry-index entry.
    fn remove_pending(&mut self, fee_n: Nullifier) -> (r: Option<PendingTransaction>)
        requires
            old(self).wf(),
        ensures
            final(self).wf(),
            phase_frame(*old(self), *final(self)),
            final(self).records == old(self).records,
            match r {
                Some(pt) => old(self).pending_txns@.contains_key(fee_n) && pt == old(self).pending_txns@[fee_n],
                None => !old(self).pending_txns@.contains_key(fee_n),
            },
            forall|n: Nullifier|
                #[trigger] final(self).pending_txns@.contains_key(n) <==> (old(self).pending_txns@.contains_key(n) && n != fee_n),
            forall|n: Nullifier|
                #[trigger] final(self).pending_txns@.contains_key(n) ==> final(self).pending_txns@[n] == old(self).pending_txns@[n],
            !old(self).pending_txns@.contains_key(fee_n) ==> (final(self).pending_txns == old(
            self).pending_txns && final(self).expiring_txns == old(self).expiring_txns
                && final(self).rng == old(self).rng),
            forall|bound: u64|
                old(self).pending_uids_below(bound) ==> final(self).pending_uids_below(bound),
    {
        let pending = self.pending_txns.remove(&fee_n);
        match pending {
            Some(pt) => {
                proof {
                    assert(old(self).pending_ok(fee_n, pt));
                    assert(old(self).expiring_has(pt.timeout, fee_n));
                }
                match self.expiring_txns.get_mut(&pt.timeout) {
                    Some(b) => {
                        proof {
                            assert forall|i: int, j: int| 0 <= i < j < b@.len() implies b@[i]
                                != b@[j] by {
                                assert(old(self).expiring_txns@[pt.timeout]@[i] != old(self).expiring_txns@[pt.timeout]@[j]);
                            }
                        }
                        remove_from_bucket(b, fee_n);
                    },
                    None => {
                        proof {
                            assert(false);
                        }
                    },
                }
                proof {
                    self.lemma_remove_pending_wf(*old(self), fee_n, pt);
                }
                Some(pt)
            },
            None => None,
        }
    }

    /// After dropping one pending entry and its expiry listing, the
    /// state is well-formed.
    proof fn lemma_remove_pending_wf(&self, pre: Self, fee_n: Nullifier, pt: PendingTransaction)
        requires
            pre.wf(),
            pre.pending_txns@.contains_key(fee_n),
            pt == pre.pending_txns@[fee_n],
            self.records == pre.records,
            self.validator == pre.validator,
            self.nullifiers == pre.nullifiers,
            self.proving_keys == pre.proving_keys,
            self.auditable_assets == pre.auditable_assets,
            self.defined_assets == pre.defined_assets,
            self.pending_txns.wf(),
            self.pending_txns@ == pre.pending_txns@.remove(fee_n),
            self.expiring_txns.wf(),
            pre.expiring_txns@.contains_key(pt.timeout),
            self.expiring_txns@ == pre.expiring_txns@.insert(
                pt.timeout,
                self.expiring_txns@[pt.timeout],
            ),
            self.expiring_txns@.contains_key(pt.timeout),
            forall|i: int, j: int|
                0 <= i < j < self.expiring_txns@[pt.timeout]@.len()
                    ==> self.expiring_txns@[pt.timeout]@[i] != self.expiring_txns@[pt.timeout]@[j],
            forall|m: Nullifier|
                #[trigger] seq_has_nul(self.expiring_txns@[pt.timeout]@, m) <==> (seq_has_nul(
                    pre.expiring_txns@[pt.timeout]@,
                    m,
                ) && m != fee_n),
        ensures
            self.wf(),
    {
        assert forall|n: Nullifier| #[trigger]
            self.pending_txns@.contains_key(n) implies self.pending_ok(
            n,
            self.pending_txns@[n],
        ) by {
            let pt2 = self.pending_txns@[n];
            assert(pre.pending_ok(n, pt2));
            assert(n != fee_n);
            assert(self.expiring_has(pt2.timeout, n)) by {
                assert(pre.expiring_has(pt2.timeout, n));
                if pt2.timeout == pt.timeout {
                    let b0 = pre.expiring_txns@[pt.timeout]@;
                    let i = choose|i: int| 0 <= i < b0.len() && b0[i] == n;
                    assert(b0[i] == n);
                    assert(seq_has_nul(b0, n));
                    assert(seq_has_nul(self.expiring_txns@[pt.timeout]@, n));
                    let j = choose|j: int|
                        0 <= j < self.expiring_txns@[pt.timeout]@.len()
                            && #[trigger] self.expiring_txns@[pt.timeout]@[j] == n;
                    assert(self.expiring_txns@[pt2.timeout]@[j] == n);
                } else {
                    assert(self.expiring_txns@[pt2.timeout] == pre.expiring_txns@[pt2.timeout]);
                    let b0 = pre.expiring_txns@[pt2.timeout]@;
                    let i = choose|i: int| 0 <= i < b0.len() && b0[i] == n;
                    assert(self.expiring_txns@[pt2.timeout]@[i] == n);
                }
            }
        }
        assert forall|t: u64| #[trigger]
            self.expiring_txns@.contains_key(t) implies (forall|i: int|
            0 <= i < self.expiring_txns@[t]@.len() ==> self.pending_txns@.contains_key(
                #[trigger] self.expiring_txns@[t]@[i],
            ) && self.pending_txns@[self.expiring_txns@[t]@[i]].timeout == t) && (forall|
            i: int,
            j: int,
        |
            0 <= i < j < self.expiring_txns@[t]@.len() ==> self.expiring_txns@[t]@[i]
                != self.expiring_txns@[t]@[j]) by {
            assert(pre.expiring_txns@.contains_key(t));
            if t == pt.timeout {
                let b = self.expiring_txns@[t]@;
                assert forall|i: int| 0 <= i < b.len() implies self.pending_txns@.contains_key(
                    #[trigger] b[i],
                ) && self.pending_txns@[b[i]].timeout == t by {
                    let m = b[i];
                    assert(seq_has_nul(b, m));
                    assert(seq_has_nul(pre.expiring_txns@[t]@, m) && m != fee_n);
                    let x = choose|x: int|
                        0 <= x < pre.expiring_txns@[t]@.len()
                            && #[trigger] pre.expiring_txns@[t]@[x] == m;
                    assert(pre.pending_txns@.contains_key(m));
                    assert(pre.pending_txns@[m].timeout == t);
                }
            } else {
                assert(self.expiring_txns@[t] == pre.expiring_txns@[t]);
                let b = self.expiring_txns@[t]@;
                assert forall|i: int| 0 <= i < b.len() implies self.pending_txns@.contains_key(
                    #[trigger] b[i],
                ) && self.pending_txns@[b[i]].timeout == t by {
                    let m = b[i];
                    assert(pre.expiring_txns@[t]@[i] == m);
                    assert(pre.pending_txns@.contains_key(m));
                    assert(pre.pending_txns@[m].timeout == t);
                    assert(m != fee_n) by {
                        if m == fee_n {
                            assert(pre.pending_txns@[fee_n].timeout == pt.timeout);
                        }
                    }
                }
            }
        }
        assert forall|n1: Nullifier, n2: Nullifier|
            #[trigger] self.pending_txns@.contains_key(n1)
                && #[trigger] self.pending_txns@.contains_key(n2) && n1 != n2 implies nul_lists_disjoint(
            self.pending_txns@[n1].nullifiers@,
            self.pending_txns@[n2].nullifiers@,
        ) by {
            assert(pre.pending_txns@.contains_key(n1));
            assert(pre.pending_txns@.contains_key(n2));
        }
    }

    /// A committed transaction of ours: drop it from the pending index
    /// and pick up its freezable outputs at their fresh uids.
    #[verifier::spinoff_prover]
    fn clear_pending_on_commit(
        &mut self,
        txn: &ElaboratedTransaction,
        uids: &mut Vec<(u64, bool)>,
        Ghost(fresh_from): Ghost<u64>,
    )
        requires
            old(self).wf(),
            old(self).pending_uids_below(fresh_from),
            uids_ok(*old(self), old(uids)@, fresh_from),
        ensures
            final(self).wf(),
            final(self).pending_uids_below(fresh_from),
            phase_frame(*old(self), *final(self)),
            uids_ok(*final(self), final(uids)@, fresh_from),
            uids_evolved(old(uids)@, final(uids)@),
            records_evolved(*old(self), *final(self), old(uids)@, final(uids)@, fresh_from),
            forall|n: Nullifier|
                #[trigger] final(self).pending_txns@.contains_key(n) ==> (old(self).pending_txns@.contains_key(n) && final(self).pending_txns@[n] == old(self).pending_txns@[n]),
            txn.txn.nullifiers@.len() > 0 ==> !final(self).pending_txns@.contains_key(
                txn.txn.nullifiers@[0],
            ),
    {
        if txn.txn.nullifiers.len() == 0 {
            return;
        }
        let fee_n = txn.txn.nullifiers[0];
        let pending = self.remove_pending(fee_n);
        let ghost mid = *self;
        match pending {
            Some(pt) => {
                // The first uid is the fee change output, which is not
                // a freeze output; skip it.
                let folen = pt.freeze_outputs.len();
                let mut k: usize = 0;
                while k < folen
                    invariant
                        mid.wf(),
                        self.wf(),
                        folen == pt.freeze_outputs@.len(),
                        k <= folen,
                        mid.pending_uids_below(fresh_from),
                        self.pending_uids_below(fresh_from),
                        phase_frame(mid, *self),
                        self.pending_txns == mid.pending_txns,
                        self.expiring_txns == mid.expiring_txns,
                        uids_ok(*self, uids@, fresh_from),
                        uids_evolved(old(uids)@, uids@),
                        records_evolved(mid, *self, old(uids)@, uids@, fresh_from),
                        uids@.len() == old(uids)@.len(),
                    decreases folen - k,
                {
                    if 1 + k >= uids.len() {
                        break;
                    }
                    let ghost pre_self = *self;
                    let ghost pre_us = uids@;
                    let pair = uids[1 + k];
                    let ro = pt.freeze_outputs[k];
                    self.register_record(ro, pair.0, Ghost(fresh_from));
                    uids.set(1 + k, (pair.0, true));
                    proof {
                        assert(uids_evolved(old(uids)@, uids@));
                        assert forall|u: u64|
                            u < fresh_from implies ((#[trigger] self.records.recs().contains_key(u)
                            <==> mid.records.recs().contains_key(u)) && (
                        mid.records.recs().contains_key(u) ==> self.records.recs()[u]
                            == mid.records.recs()[u])) by {
                            assert(pair.0 >= fresh_from);
                        }
                        assert forall|j: int|
                            0 <= j < uids@.len() && !(#[trigger] uids@[j]).1 implies (
                        self.records.recs().contains_key(uids@[j].0)
                            <==> mid.records.recs().contains_key(uids@[j].0)) by {
                            assert(uids@[j].0 == pre_us[j].0);
                            if j != 1 + k {
                                assert(pre_us[j].0 != pair.0);
                                assert(!pre_us[j].1);
                            }
                        }
                        assert(0 <= 1 + k < uids@.len());
                        assert(uids@[1 + k as int] == (pair.0, true));
                        assert forall|u: u64|
                            ((forall|j: int|
                                0 <= j < uids@.len() ==> (#[trigger] uids@[j]).0 != u) && u
                                >= fresh_from) implies (
                        #[trigger] self.records.recs().contains_key(u)
                            <==> mid.records.recs().contains_key(u)) by {
                            assert(uids@[1 + k as int].0 != u);
                            assert(u != pair.0);
                            assert forall|j: int| 0 <= j < pre_us.len() implies (
                            #[trigger] pre_us[j]).0 != u by {
                                assert(uids@[j].0 != u);
                                assert(pre_us[j].0 == uids@[j].0);
                            }
                            assert(pre_self.records.recs().contains_key(u)
                                <==> mid.records.recs().contains_key(u));
                            assert(self.records.recs().contains_key(u)
                                <==> pre_self.records.recs().contains_key(u));
                        }
                    }
                    k += 1;
                }
            },
            None => {},
        }
    }
}



/// Does our auditor key open this transaction's audit memo: transfers
/// need the asset registered for auditing, mints open directly.
pub open spec fn audit_opens(pre: WalletState, txn: ElaboratedTransaction) -> bool {
    match txn.txn.audit_memo {
        Some(memo) => memo.auditor_pub_key == pre.auditor_key_pair && (match txn.txn.kind {
            NoteKind::Transfer => pre.auditable_assets@.contains_key(memo.asset_code),
            NoteKind::Mint => true,
            NoteKind::Freeze => false,
        }),
        None => false,
    }
}

/// The record an audit memo entry lets the freezer reconstruct.
pub open spec fn audited_opening(pre: WalletState, book: Map<u64, u64>, d: AuditData) -> RecordOpening {
    RecordOpening {
        amount: d.amount.unwrap(),
        asset_def: pre.auditable_assets@[d.asset_code],
        pub_key: book[d.user_address.unwrap()],
        freeze_flag: FreezeFlag::Unfrozen,
        blind: d.blind.unwrap(),
    }
}

/// An audit memo entry whose revealed fields suffice for freezing:
/// the asset is one we audit, every field is revealed, the address
/// resolves, and we hold the asset's freezer key.
pub open spec fn audit_entry_usable(pre: WalletState, book: Map<u64, u64>, d: AuditData) -> bool {
    &&& pre.auditable_assets@.contains_key(d.asset_code)
    &&& d.user_address is Some
    &&& d.amount is Some
    &&& d.blind is Some
    &&& book.contains_key(d.user_address.unwrap())
    &&& pre.auditable_assets@[d.asset_code].policy.freezer_pub_key == pre.freezer_key_pair
}

impl WalletState {
    /// Try to open a transaction's audit memo with our auditor key
    /// against each auditable asset; on success, reconstruct and pick
    /// up every output whose revealed fields suffice and whose asset we
    /// can freeze.
    fn audit_transaction(
        &mut self,
        session: &WalletSession,
        txn: &ElaboratedTransaction,
        uids: &mut Vec<(u64, bool)>,
        Ghost(fresh_from): Ghost<u64>,
    )
        requires
            old(self).wf(),
            session.wf(),
            old(self).pending_uids_below(fresh_from),
            uids_ok(*old(self), old(uids)@, fresh_from),
        ensures
            final(self).wf(),
            final(self).pending_uids_below(fresh_from),
            phase_frame(*old(self), *final(self)),
            final(self).pending_txns == old(self).pending_txns,
            final(self).expiring_txns == old(self).expiring_txns,
            uids_ok(*final(self), final(uids)@, fresh_from),
            uids_evolved(old(uids)@, final(uids)@),
            records_evolved(*old(self), *final(self), old(uids)@, final(uids)@, fresh_from),
            // Everything the memo reveals and we can freeze is adopted
            // at its uid, with the remember flag set.
            audit_opens(*old(self), *txn) ==> (forall|k2: int|
                0 <= k2 < txn.txn.audit_memo.unwrap().outputs@.len() && 1 + k2 < old(uids)@.len()
                    && audit_entry_usable(
                    *old(self),
                    session.address_book@,
                    #[trigger] txn.txn.audit_memo.unwrap().outputs@[k2],
                ) ==> final(self).records.recs().contains_key(old(uids)@[1 + k2].0) && final(self).records.recs()[old(uids)@[1 + k2].0] == (RecordInfo {
                    ro: audited_opening(
                        *old(self),
                        session.address_book@,
                        txn.txn.audit_memo.unwrap().outputs@[k2],
                    ),
                    uid: old(uids)@[1 + k2].0,
                    hold_until: None,
                }) && final(uids)@[1 + k2].1),
    {
        // Which memo opens, if any, under our auditor key?
        let audit_outputs: Option<&Vec<AuditData>> = match (&txn.txn.kind, &txn.txn.audit_memo) {
            (NoteKind::Transfer, Some(memo)) => {
                let mut opened: bool = false;
                let n_assets = self.auditable_assets.len();
                let mut a: usize = 0;
                while a < n_assets && !opened
                    invariant
                        *self == *old(self),
                        old(self).wf(),
                        n_assets == self.auditable_assets.entries_seq().len(),
                        a <= n_assets,
                        self.auditable_assets.wf(),
                        !opened ==> forall|j: int|
                            0 <= j < a ==> !((#[trigger] self.auditable_assets.entries_seq()[j]).1.code
                                == memo.asset_code && memo.auditor_pub_key
                                == self.auditor_key_pair),
                        opened ==> memo.auditor_pub_key == self.auditor_key_pair
                            && self.auditable_assets@.contains_key(memo.asset_code),
                    decreases n_assets - a + (if opened { 0int } else { 1int }),
                {
                    let entry = self.auditable_assets.entry_at(a);
                    if memo.auditor_pub_key == self.auditor_key_pair && memo.asset_code
                        == entry.1.code {
                        proof {
                            self.auditable_assets.lemma_entry(a as int);
                            assert(self.auditable_assets@.contains_key(
                                self.auditable_assets.entries_seq()[a as int].0,
                            ));
                        }
                        opened = true;
                    } else {
                        a += 1;
                    }
                }
                proof {
                    if !opened && memo.auditor_pub_key == self.auditor_key_pair
                        && self.auditable_assets@.contains_key(memo.asset_code) {
                        self.auditable_assets.lemma_key_has_entry(memo.asset_code);
                        let j = choose|j: int|
                            0 <= j < self.auditable_assets.entries_seq().len() && (
                            #[trigger] self.auditable_assets.entries_seq()[j]).0 == memo.asset_code
                                && self.auditable_assets.entries_seq()[j].1
                                == self.auditable_assets@[memo.asset_code];
                        assert(self.auditable_assets.entries_seq()[j].1.code == memo.asset_code);
                    }
                    assert(opened == audit_opens(*old(self), *txn));
                }
                if opened {
                    Some(&memo.outputs)
                } else {
                    None
                }
            },
            (NoteKind::Mint, Some(memo)) => {
                if memo.auditor_pub_key == self.auditor_key_pair {
                    Some(&memo.outputs)
                } else {
                    None
                }
            },
            _ => None,
        };
        let outputs = match audit_outputs {
            Some(o) => o,
            None => {
                proof {
                    assert(!audit_opens(*old(self), *txn));
                }
                return;
            },
        };
        proof {
            assert(audit_opens(*old(self), *txn));
            assert(outputs@ == txn.txn.audit_memo.unwrap().outputs@);
        }
        // The first uid is the fee change output, which has no audit
        // memo entry; skip it.
        let olen = outputs.len();
        let mut k: usize = 0;
        let mut stop = false;
        while k < olen && !stop
            invariant
                old(self).wf(),
                self.wf(),
                session.wf(),
                olen == outputs@.len(),
                outputs@ == txn.txn.audit_memo.unwrap().outputs@,
                audit_opens(*old(self), *txn),
                k <= olen,
                stop ==> 1 + k >= old(uids)@.len(),
                old(self).pending_uids_below(fresh_from),
                self.pending_uids_below(fresh_from),
                phase_frame(*old(self), *self),
                self.pending_txns == old(self).pending_txns,
                self.expiring_txns == old(self).expiring_txns,
                uids_ok(*self, uids@, fresh_from),
                uids_evolved(old(uids)@, uids@),
                records_evolved(*old(self), *self, old(uids)@, uids@, fresh_from),
                uids@.len() == old(uids)@.len(),
                forall|k2: int|
                    0 <= k2 < k && 1 + k2 < old(uids)@.len() && audit_entry_usable(
                        *old(self),
                        session.address_book@,
                        #[trigger] outputs@[k2],
                    ) ==> self.records.recs().contains_key(old(uids)@[1 + k2].0)
                        && self.records.recs()[old(uids)@[1 + k2].0] == (RecordInfo {
                        ro: audited_opening(*old(self), session.address_book@, outputs@[k2]),
                        uid: old(uids)@[1 + k2].0,
                        hold_until: None,
                    }) && uids@[1 + k2].1,
            decreases olen - k + (if stop {
                0int
            } else {
                1int
            }),
        {
            if 1 + k >= uids.len() {
                stop = true;
            } else {
            let d = outputs[k];
            let have_def = match self.auditable_assets.get(&d.asset_code) {
                Some(def) => Some(*def),
                None => None,
            };
            if let Some(def) = have_def {
                if let (Some(addr), Some(amount), Some(blind)) = (d.user_address, d.amount, d.blind) {
                    let resolved = match session.get_public_key(addr) {
                        Ok(kk) => Some(kk),
                        Err(_) => None,
                    };
                    if let Some(pub_key) = resolved {
                        if def.policy.freezer_pub_key == self.freezer_key_pair {
                            let ghost pre_self = *self;
                            let ghost pre_us = uids@;
                            let pair = uids[1 + k];
                            let ro = RecordOpening {
                                amount,
                                asset_def: def,
                                pub_key,
                                freeze_flag: FreezeFlag::Unfrozen,
                                blind,
                            };
                            self.register_record(ro, pair.0, Ghost(fresh_from));
                            uids.set(1 + k, (pair.0, true));
                            proof {
                                assert(self.records.recs()[pair.0] == (RecordInfo {
                                    ro,
                                    uid: pair.0,
                                    hold_until: None,
                                }));
                                assert(ro == audited_opening(
                                    *old(self),
                                    session.address_book@,
                                    outputs@[k as int],
                                ));
                                assert forall|k2: int|
                                    0 <= k2 < k + 1 && 1 + k2 < old(uids)@.len()
                                        && audit_entry_usable(
                                        *old(self),
                                        session.address_book@,
                                        #[trigger] outputs@[k2],
                                    ) implies self.records.recs().contains_key(
                                    old(uids)@[1 + k2].0,
                                ) && self.records.recs()[old(uids)@[1 + k2].0] == (RecordInfo {
                                    ro: audited_opening(
                                        *old(self),
                                        session.address_book@,
                                        outputs@[k2],
                                    ),
                                    uid: old(uids)@[1 + k2].0,
                                    hold_until: None,
                                }) && uids@[1 + k2].1 by {
                                    if k2 < k {
                                        assert(old(uids)@[1 + k2].0 != pair.0);
                                    }
                                }
                                assert(uids_evolved(old(uids)@, uids@));
                                assert forall|u: u64|
                                    u < fresh_from implies ((
                                #[trigger] self.records.recs().contains_key(u) <==> old(
                                self).records.recs().contains_key(u)) && (old(
                                self).records.recs().contains_key(u) ==> self.records.recs()[u]
                                    == old(self).records.recs()[u])) by {
                                    assert(pair.0 >= fresh_from);
                                    assert(u != pair.0);
                                    assert(pre_self.records.recs().contains_key(u) <==> old(
                                    self).records.recs().contains_key(u));
                                    if old(self).records.recs().contains_key(u) {
                                        assert(pre_self.records.recs()[u] == old(
                                        self).records.recs()[u]);
                                    }
                                    assert(self.records.recs().contains_key(u)
                                        <==> pre_self.records.recs().contains_key(u));
                                    if pre_self.records.recs().contains_key(u) {
                                        assert(self.records.recs()[u]
                                            == pre_self.records.recs()[u]);
                                    }
                                }
                                assert forall|j: int|
                                    0 <= j < uids@.len() && !(#[trigger] uids@[j]).1 implies (
                                self.records.recs().contains_key(uids@[j].0) <==> old(
                                self).records.recs().contains_key(uids@[j].0)) by {
                                    assert(uids@[j].0 == pre_us[j].0);
                                    if j != 1 + k {
                                        assert(pre_us[j].0 != pair.0);
                                        assert(!pre_us[j].1);
                                    }
                                }
                                assert(0 <= 1 + k < uids@.len());
                                assert(uids@[1 + k as int] == (pair.0, true));
                                assert forall|u: u64|
                                    ((forall|j: int|
                                        0 <= j < uids@.len() ==> (#[trigger] uids@[j]).0 != u) && u
                                        >= fresh_from) implies (
                                #[trigger] self.records.recs().contains_key(u) <==> old(
                                self).records.recs().contains_key(u)) by {
                                    assert(uids@[1 + k as int].0 != u);
                                    assert(u != pair.0);
                                    assert forall|j: int| 0 <= j < pre_us.len() implies (
                                    #[trigger] pre_us[j]).0 != u by {
                                        assert(uids@[j].0 != u);
                                        assert(pre_us[j].0 == uids@[j].0);
                                    }
                                    assert(pre_self.records.recs().contains_key(u) <==> old(
                                    self).records.recs().contains_key(u));
                                    assert(self.records.recs().contains_key(u)
                                        <==> pre_self.records.recs().contains_key(u));
                                }
                            }
                        }
                    }
                }
            }
            k += 1;
            }
        }
    }

    /// Try to decrypt each receiver memo with our key; any that opens
    /// against its output commitment is a record of ours.
    fn receive_transaction_outputs(
        &mut self,
        session: &WalletSession,
        txn: &ElaboratedTransaction,
        memos: &Vec<ReceiverMemo>,
        uids: &mut Vec<(u64, bool)>,
        Ghost(fresh_from): Ghost<u64>,
    )
        requires
            old(self).wf(),
            old(self).pending_uids_below(fresh_from),
            uids_ok(*old(self), old(uids)@, fresh_from),
        ensures
            final(self).wf(),
            final(self).pending_uids_below(fresh_from),
            phase_frame(*old(self), *final(self)),
            final(self).pending_txns == old(self).pending_txns,
            final(self).expiring_txns == old(self).expiring_txns,
            uids_ok(*final(self), final(uids)@, fresh_from),
            uids_evolved(old(uids)@, final(uids)@),
            records_evolved(*old(self), *final(self), old(uids)@, final(uids)@, fresh_from),
            // Every memo addressed to us that matches its commitment is
            // adopted at its uid, with the remember flag set.
            (memos@.len() == txn.txn.output_commitments@.len() && old(uids)@.len()
                == txn.txn.output_commitments@.len()) ==> forall|i: int|
                0 <= i < memos@.len() && (#[trigger] memos@[i]).ro.pub_key == session.key_pair
                    && memos@[i].ro == txn.txn.output_commitments@[i].ro ==> final(self).records.recs().contains_key(old(uids)@[i].0) && final(self).records.recs()[old(uids)@[i].0] == (RecordInfo {
                    ro: memos@[i].ro,
                    uid: old(uids)@[i].0,
                    hold_until: None,
                }) && final(uids)@[i].1,
            // a uid whose memo is not ours, or not matching, keeps
            // whatever record it had
            forall|i: int|
                0 <= i < old(uids)@.len() && !(memos@.len() == txn.txn.output_commitments@.len()
                    && old(uids)@.len() == txn.txn.output_commitments@.len() && (
                #[trigger] memos@[i]).ro.pub_key == session.key_pair && memos@[i].ro
                    == txn.txn.output_commitments@[i].ro) ==> ((final(self).records.recs().contains_key(old(uids)@[i].0)
                    <==> old(self).records.recs().contains_key(old(uids)@[i].0)) && (old(self).records.recs().contains_key(old(uids)@[i].0)
                    ==> final(self).records.recs()[old(uids)@[i].0] == old(self).records.recs()[old(uids)@[i].0])),
    {
        let n_out = txn.txn.output_commitments.len();
        if memos.len() != n_out || uids.len() != n_out {
            // a malformed event: the memo list must pair off with the
            // outputs
            return;
        }
        let mut i: usize = 0;
        while i < n_out
            invariant
                old(self).wf(),
                self.wf(),
                n_out == txn.txn.output_commitments@.len(),
                n_out == memos@.len(),
                uids@.len() == n_out,
                old(uids)@.len() == n_out,
                i <= n_out,
                old(self).pending_uids_below(fresh_from),
                self.pending_uids_below(fresh_from),
                phase_frame(*old(self), *self),
                self.pending_txns == old(self).pending_txns,
                self.expiring_txns == old(self).expiring_txns,
                uids_ok(*self, uids@, fresh_from),
                uids_evolved(old(uids)@, uids@),
                records_evolved(*old(self), *self, old(uids)@, uids@, fresh_from),
                forall|i2: int|
                    0 <= i2 < i && (#[trigger] memos@[i2]).ro.pub_key == session.key_pair
                        && memos@[i2].ro == txn.txn.output_commitments@[i2].ro
                        ==> self.records.recs().contains_key(old(uids)@[i2].0)
                        && self.records.recs()[old(uids)@[i2].0] == (RecordInfo {
                        ro: memos@[i2].ro,
                        uid: old(uids)@[i2].0,
                        hold_until: None,
                    }) && uids@[i2].1,
                forall|i2: int|
                    0 <= i2 < n_out && !((#[trigger] memos@[i2]).ro.pub_key == session.key_pair
                        && memos@[i2].ro == txn.txn.output_commitments@[i2].ro) ==> ((
                    self.records.recs().contains_key(old(uids)@[i2].0) <==> old(self).records.recs().contains_key(old(uids)@[i2].0)) && (old(self).records.recs().contains_key(old(uids)@[i2].0)
                        ==> self.records.recs()[old(uids)@[i2].0] == old(self).records.recs()[old(uids)@[i2].0])),
            decreases n_out - i,
        {
            let memo = memos[i];
            match memo.decrypt(session.key_pair, &txn.txn.output_commitments[i]) {
                Some(ro) => {
                    let ghost pre_self = *self;
                    let ghost pre_us = uids@;
                    let pair = uids[i];
                    self.register_record(ro, pair.0, Ghost(fresh_from));
                    uids.set(i, (pair.0, true));
                    proof {
                        assert(self.records.recs()[pair.0] == (RecordInfo {
                            ro,
                            uid: pair.0,
                            hold_until: None,
                        }));
                        assert forall|i2: int|
                            0 <= i2 < n_out && !((#[trigger] memos@[i2]).ro.pub_key
                                == session.key_pair && memos@[i2].ro
                                == txn.txn.output_commitments@[i2].ro) implies ((
                        self.records.recs().contains_key(old(uids)@[i2].0) <==> old(self).records.recs().contains_key(old(uids)@[i2].0)) && (old(self).records.recs().contains_key(old(uids)@[i2].0)
                            ==> self.records.recs()[old(uids)@[i2].0] == old(self).records.recs()[old(uids)@[i2].0])) by {
                            assert(i2 != i);
                            assert(old(uids)@[i2].0 == pre_us[i2].0);
                            assert(pre_us[i2].0 != pre_us[i as int].0);
                            assert(pre_us[i as int].0 == pair.0);
                            assert(pre_self.records.recs().contains_key(pre_us[i2].0) <==> old(self).records.recs().contains_key(pre_us[i2].0));
                            if old(self).records.recs().contains_key(pre_us[i2].0) {
                                assert(pre_self.records.recs()[pre_us[i2].0] == old(self).records.recs()[pre_us[i2].0]);
                            }
                        }
                        assert forall|i2: int|
                            0 <= i2 < i + 1 && (#[trigger] memos@[i2]).ro.pub_key
                                == session.key_pair && memos@[i2].ro
                                == txn.txn.output_commitments@[i2].ro
                            implies self.records.recs().contains_key(old(uids)@[i2].0)
                            && self.records.recs()[old(uids)@[i2].0] == (RecordInfo {
                            ro: memos@[i2].ro,
                            uid: old(uids)@[i2].0,
                            hold_until: None,
                        }) && uids@[i2].1 by {
                            if i2 < i {
                                assert(old(uids)@[i2].0 != pair.0);
                            }
                        }
                        assert(uids_evolved(old(uids)@, uids@));
                        assert forall|u: u64|
                            u < fresh_from implies ((#[trigger] self.records.recs().contains_key(u)
                            <==> old(self).records.recs().contains_key(u)) && (old(
                        self).records.recs().contains_key(u) ==> self.records.recs()[u] == old(
                        self).records.recs()[u])) by {
                            assert(pair.0 >= fresh_from);
                            assert(u != pair.0);
                            assert(pre_self.records.recs().contains_key(u) <==> old(
                            self).records.recs().contains_key(u));
                            if old(self).records.recs().contains_key(u) {
                                assert(pre_self.records.recs()[u] == old(
                                self).records.recs()[u]);
                            }
                            assert(self.records.recs().contains_key(u)
                                <==> pre_self.records.recs().contains_key(u));
                            if pre_self.records.recs().contains_key(u) {
                                assert(self.records.recs()[u] == pre_self.records.recs()[u]);
                            }
                        }
                        assert forall|j: int|
                            0 <= j < uids@.len() && !(#[trigger] uids@[j]).1 implies (
                        self.records.recs().contains_key(uids@[j].0) <==> old(
                        self).records.recs().contains_key(uids@[j].0)) by {
                            assert(uids@[j].0 == pre_us[j].0);
                            if j != i {
                                assert(pre_us[j].0 != pair.0);
                                assert(!pre_us[j].1);
                            }
                        }
                        assert(0 <= i < uids@.len());
                        assert(uids@[i as int] == (pair.0, true));
                        assert forall|u: u64|
                            ((forall|j: int|
                                0 <= j < uids@.len() ==> (#[trigger] uids@[j]).0 != u) && u
                                >= fresh_from) implies (
                        #[trigger] self.records.recs().contains_key(u) <==> old(
                        self).records.recs().contains_key(u)) by {
                            assert(uids@[i as int].0 != u);
                            assert(u != pair.0);
                            assert forall|j: int| 0 <= j < pre_us.len() implies (
                            #[trigger] pre_us[j]).0 != u by {
                                assert(uids@[j].0 != u);
                                assert(pre_us[j].0 == uids@[j].0);
                            }
                            assert(pre_self.records.recs().contains_key(u) <==> old(
                            self).records.recs().contains_key(u));
                            assert(self.records.recs().contains_key(u)
                                <==> pre_self.records.recs().contains_key(u));
                        }
                    }
                },
                None => {},
            }
            i += 1;
        }
    }
}


/// Copy a transaction note.
fn copy_note(note: &TransactionNote) -> (r: TransactionNote)
    ensures
        r.kind == note.kind,
        r.nullifiers@ == note.nullifiers@,
        r.output_commitments@ == note.output_commitments@,
        r.record_root == note.record_root,
        r.memo_verif_key == note.memo_verif_key,
{
    let audit_memo = match &note.audit_memo {
        Some(m) => Some(
            AuditMemo {
                auditor_pub_key: m.auditor_pub_key,
                asset_code: m.asset_code,
                outputs: crate::types::copy_vec(&m.outputs),
            },
        ),
        None => None,
    };
    TransactionNote {
        kind: note.kind,
        nullifiers: crate::types::copy_vec(&note.nullifiers),
        output_commitments: crate::types::copy_vec(&note.output_commitments),
        audit_memo,
        record_root: note.record_root,
        memo_verif_key: note.memo_verif_key,
    }
}

impl WalletState {
    /// A nullifier published on the ledger: mirror it into our sparse
    /// set and, if it spends one of our records, drop the record and
    /// forget its leaf.
    fn spend_nullifier(&mut self, n: Nullifier)
        requires
            old(self).wf(),
        ensures
            final(self).wf(),
            forall|m: Nullifier|
                #[trigger] final(self).nullifiers.contains_spec(m) <==> (old(self).nullifiers.contains_spec(m) || m == n),
            final(self).now == old(self).now,
            final(self).rng == old(self).rng,
            final(self).pending_txns == old(self).pending_txns,
            final(self).expiring_txns == old(self).expiring_txns,
            final(self).auditable_assets == old(self).auditable_assets,
            final(self).defined_assets == old(self).defined_assets,
            final(self).proving_keys == old(self).proving_keys,
            final(self).auditor_key_pair == old(self).auditor_key_pair,
            final(self).freezer_key_pair == old(self).freezer_key_pair,
            final(self).validator.record_count == old(self).validator.record_count,
            final(self).validator.record_root == old(self).validator.record_root,
            final(self).validator.past_record_roots == old(self).validator.past_record_roots,
            final(self).validator.prev_commit_time == old(self).validator.prev_commit_time,
            final(self).validator.nullifiers == old(self).validator.nullifiers,
            forall|u: u64|
                #[trigger] final(self).records.recs().contains_key(u) <==> (old(self).records.recs().contains_key(u) && !(old(self).records.nuls().contains_key(n) && u
                    == n.uid)),
            forall|u: u64|
                #[trigger] final(self).records.recs().contains_key(u) ==> final(self).records.recs()[u] == old(self).records.recs()[u],
            forall|u: u64|
                #[trigger] final(self).validator.remembered@.contains_key(u) <==> (old(
                self).validator.remembered@.contains_key(u) && !(old(
                self).records.nuls().contains_key(n) && u == n.uid)),
            forall|bound: u64|
                old(self).pending_uids_below(bound) ==> final(self).pending_uids_below(bound),
    {
        self.nullifiers.insert(n);
        let version_now: usize = self.nullifiers.set.len();
        proof {
            assert(self.nullifiers.version_spec() == version_now as int);
        }
        let removed = self.records.remove_by_nullifier(n);
        match removed {
            Some(rec) => {
                self.validator.forget(rec.uid);
            },
            None => {},
        }
        proof {
            assert forall|n2: Nullifier| #[trigger]
                self.pending_txns@.contains_key(n2) implies self.pending_ok(
                n2,
                self.pending_txns@[n2],
            ) by {
                let pt = self.pending_txns@[n2];
                assert(old(self).pending_ok(n2, pt));
                assert forall|i: int|
                    0 <= i < pt.nullifiers@.len() && self.records.nuls().contains_key(
                        #[trigger] pt.nullifiers@[i],
                    ) implies self.records.recs()[pt.nullifiers@[i].uid].hold_until == Some(
                    pt.timeout,
                ) by {
                    let m = pt.nullifiers@[i];
                    assert(old(self).records.nuls().contains_key(m));
                    assert(old(self).records.recs().contains_key(m.uid));
                    assert(self.records.recs().contains_key(m.uid));
                    assert(self.records.recs()[m.uid] == old(self).records.recs()[m.uid]);
                }
                assert(self.expiring_has(pt.timeout, n2) == old(self).expiring_has(pt.timeout, n2));
            }
            assert forall|u: u64| #[trigger]
                self.records.recs().contains_key(u) implies self.validator.remembered@.contains_key(
                u,
            ) by {
                assert(old(self).records.recs().contains_key(u));
                assert(u != n.uid || !old(self).records.nuls().contains_key(n));
            }
        }
    }

    /// A rejected transaction of ours: drop it from the pending index
    /// and release the holds on its input records.
    fn clear_pending_on_reject(&mut self, txn: &ElaboratedTransaction) -> (r: Option<
        PendingTransaction,
    >)
        requires
            old(self).wf(),
        ensures
            final(self).wf(),
            phase_frame(*old(self), *final(self)),
            match r {
                Some(pt) => txn.txn.nullifiers@.len() > 0 && old(self).pending_txns@.contains_key(
                    txn.txn.nullifiers@[0],
                ) && pt == old(self).pending_txns@[txn.txn.nullifiers@[0]],
                None => txn.txn.nullifiers@.len() == 0 || !old(self).pending_txns@.contains_key(
                    txn.txn.nullifiers@[0],
                ),
            },
            forall|n: Nullifier|
                #[trigger] final(self).pending_txns@.contains_key(n) ==> (old(
                self).pending_txns@.contains_key(n) && final(self).pending_txns@[n] == old(
                self).pending_txns@[n]),
            match r {
                Some(_) => forall|n: Nullifier|
                    #[trigger] final(self).pending_txns@.contains_key(n) <==> (old(
                    self).pending_txns@.contains_key(n) && n != txn.txn.nullifiers@[0]),
                None => final(self).pending_txns == old(self).pending_txns,
            },
            forall|u: u64|
                #[trigger] final(self).records.recs().contains_key(u) <==> old(
                self).records.recs().contains_key(u),
            forall|u: u64|
                #[trigger] final(self).records.recs().contains_key(u) ==> (final(
                self).records.recs()[u].ro == old(self).records.recs()[u].ro && final(
                self).records.recs()[u].uid == old(self).records.recs()[u].uid),
            match r {
                Some(pt) => forall|i: int|
                    0 <= i < pt.nullifiers@.len() && final(self).records.nuls().contains_key(
                        #[trigger] pt.nullifiers@[i],
                    ) ==> final(self).records.recs()[pt.nullifiers@[i].uid].hold_until
                        == None::<u64>,
                None => final(self).records == old(self).records,
            },
            forall|bound: u64|
                old(self).pending_uids_below(bound) ==> final(self).pending_uids_below(bound),
    {
        if txn.txn.nullifiers.len() == 0 {
            return None;
        }
        let fee_n = txn.txn.nullifiers[0];
        let pending = self.remove_pending(fee_n);
        let ghost mid = *self;
        match pending {
            Some(pt) => {
                // Release the holds we placed when we submitted it.
                let nlen = pt.nullifiers.len();
                let mut i: usize = 0;
                while i < nlen
                    invariant
                        mid.wf(),
                        self.wf(),
                        nlen == pt.nullifiers@.len(),
                        i <= nlen,
                        phase_frame(mid, *self),
                        self.pending_txns == mid.pending_txns,
                        self.expiring_txns == mid.expiring_txns,
                        forall|n2: Nullifier|
                            #[trigger] mid.pending_txns@.contains_key(n2) <==> (old(
                            self).pending_txns@.contains_key(n2) && n2 != fee_n),
                        forall|n2: Nullifier|
                            #[trigger] mid.pending_txns@.contains_key(n2)
                                ==> mid.pending_txns@[n2] == old(self).pending_txns@[n2],
                        forall|n2: Nullifier|
                            #[trigger] mid.pending_txns@.contains_key(n2) ==> nul_lists_disjoint(
                                pt.nullifiers@,
                                mid.pending_txns@[n2].nullifiers@,
                            ),
                        self.records.nuls() == mid.records.nuls(),
                        forall|u: u64|
                            #[trigger] self.records.recs().contains_key(u)
                                <==> mid.records.recs().contains_key(u),
                        forall|u: u64|
                            #[trigger] self.records.recs().contains_key(u)
                                ==> self.records.recs()[u].ro == mid.records.recs()[u].ro
                                && self.records.recs()[u].uid == mid.records.recs()[u].uid,
                        forall|m: int|
                            0 <= m < i && self.records.nuls().contains_key(
                                #[trigger] pt.nullifiers@[m],
                            ) ==> self.records.recs()[pt.nullifiers@[m].uid].hold_until
                                == None::<u64>,
                        forall|u: u64|
                            (#[trigger] mid.records.recs().contains_key(u) && (forall|m: int|
                                0 <= m < i ==> ((#[trigger] pt.nullifiers@[m]).uid != u
                                    || !self.records.nuls().contains_key(pt.nullifiers@[m]))))
                                ==> self.records.recs()[u] == mid.records.recs()[u],
                    decreases nlen - i,
                {
                    let n = pt.nullifiers[i];
                    let ghost pre_recs = self.records.recs();
                    self.records.unhold_record_with_nullifier(&n);
                    proof {
                        assert forall|m: int|
                            0 <= m < i + 1 && self.records.nuls().contains_key(
                                #[trigger] pt.nullifiers@[m],
                            ) implies self.records.recs()[pt.nullifiers@[m].uid].hold_until
                            == None::<u64> by {
                            if pt.nullifiers@[m].uid == n.uid {
                                if !mid.records.nuls().contains_key(n) {
                                    assert(self.records.recs() == pre_recs);
                                    assert(m < i);
                                }
                            } else {
                                assert(m < i);
                                if mid.records.nuls().contains_key(n) {
                                    assert(self.records.recs()[pt.nullifiers@[m].uid]
                                        == pre_recs[pt.nullifiers@[m].uid]);
                                } else {
                                    assert(self.records.recs() == pre_recs);
                                }
                            }
                        }
                        assert forall|u: u64|
                            (#[trigger] mid.records.recs().contains_key(u) && (forall|m: int|
                                0 <= m < i + 1 ==> ((#[trigger] pt.nullifiers@[m]).uid != u
                                    || !self.records.nuls().contains_key(pt.nullifiers@[m]))))
                            implies self.records.recs()[u] == mid.records.recs()[u] by {
                            assert(pt.nullifiers@[i as int].uid != u
                                || !self.records.nuls().contains_key(pt.nullifiers@[i as int]));
                            if mid.records.nuls().contains_key(n) {
                                assert(n.uid != u);
                                assert(self.records.recs()[u] == pre_recs[u]);
                            } else {
                                assert(self.records.recs() == pre_recs);
                            }
                        }
                        self.lemma_unhold_keeps_wf(mid, pt, i as int, pre_recs, n);
                    }
                    i += 1;
                }
                proof {
                    assert forall|n2: Nullifier|
                        #[trigger] self.pending_txns@.contains_key(n2) <==> (old(
                    self).pending_txns@.contains_key(n2) && n2 != fee_n) by {
                        assert(self.pending_txns == mid.pending_txns);
                        assert(mid.pending_txns@.contains_key(n2) <==> (old(
                        self).pending_txns@.contains_key(n2) && n2 != fee_n));
                    }
                }
                Some(pt)
            },
            None => None,
        }
    }

    /// Releasing the hold of a record referenced by no remaining
    /// pending transaction keeps the state well-formed.
    proof fn lemma_unhold_keeps_wf(
        &self,
        mid: Self,
        pt: PendingTransaction,
        i: int,
        pre_recs: Map<u64, RecordInfo>,
        n: Nullifier,
    )
        requires
            mid.wf(),
            0 <= i < pt.nullifiers@.len(),
            n == pt.nullifiers@[i],
            forall|n2: Nullifier|
                #[trigger] mid.pending_txns@.contains_key(n2) ==> nul_lists_disjoint(
                    pt.nullifiers@,
                    mid.pending_txns@[n2].nullifiers@,
                ),
            self.records.wf(),
            self.pending_txns == mid.pending_txns,
            self.expiring_txns == mid.expiring_txns,
            self.validator == mid.validator,
            self.nullifiers == mid.nullifiers,
            self.proving_keys == mid.proving_keys,
            self.auditable_assets == mid.auditable_assets,
            self.defined_assets == mid.defined_assets,
            self.records.nuls() == mid.records.nuls(),
            forall|u: u64|
                #[trigger] self.records.recs().contains_key(u) <==> mid.records.recs().contains_key(
                    u,
                ),
            mid.records.nuls().contains_key(n) ==> self.records.recs() == pre_recs.insert(
                n.uid,
                (RecordInfo { ro: pre_recs[n.uid].ro, uid: n.uid, hold_until: None::<u64> }),
            ) && pre_recs.contains_key(n.uid),
            !mid.records.nuls().contains_key(n) ==> self.records.recs() == pre_recs,
            forall|u: u64|
                #[trigger] pre_recs.contains_key(u) <==> mid.records.recs().contains_key(u),
            forall|u: u64|
                (#[trigger] mid.records.recs().contains_key(u) && (forall|m: int|
                    0 <= m < i ==> ((#[trigger] pt.nullifiers@[m]).uid != u
                        || !mid.records.nuls().contains_key(pt.nullifiers@[m])))) ==> pre_recs[u]
                    == mid.records.recs()[u],
        ensures
            self.wf(),
    {
        assert forall|n2: Nullifier| #[trigger]
            self.pending_txns@.contains_key(n2) implies self.pending_ok(
            n2,
            self.pending_txns@[n2],
        ) by {
            let pt2 = self.pending_txns@[n2];
            assert(mid.pending_ok(n2, pt2));
            assert forall|j: int|
                0 <= j < pt2.nullifiers@.len() && self.records.nuls().contains_key(
                    #[trigger] pt2.nullifiers@[j],
                ) implies self.records.recs()[pt2.nullifiers@[j].uid].hold_until == Some(
                pt2.timeout,
            ) by {
                let m = pt2.nullifiers@[j];
                assert(mid.records.nuls().contains_key(m));
                assert(mid.records.recs().contains_key(m.uid));
                assert(mid.records.recs()[m.uid].nullifier_spec() == m);
                assert(nul_lists_disjoint(pt.nullifiers@, pt2.nullifiers@));
                assert forall|q: int|
                    0 <= q < i implies ((#[trigger] pt.nullifiers@[q]).uid != m.uid
                        || !mid.records.nuls().contains_key(pt.nullifiers@[q])) by {
                    if pt.nullifiers@[q].uid == m.uid && mid.records.nuls().contains_key(
                        pt.nullifiers@[q],
                    ) {
                        assert(mid.records.recs()[m.uid].nullifier_spec() == pt.nullifiers@[q]);
                        assert(pt.nullifiers@[q] == m);
                        assert(pt.nullifiers@[q] != pt2.nullifiers@[j]);
                    }
                }
                assert(pre_recs[m.uid] == mid.records.recs()[m.uid]);
                assert(m.uid != n.uid || !mid.records.nuls().contains_key(n)) by {
                    if m.uid == n.uid && mid.records.nuls().contains_key(n) {
                        assert(mid.records.recs()[m.uid].nullifier_spec() == n);
                        assert(m == n);
                        assert(pt.nullifiers@[i] != pt2.nullifiers@[j]);
                    }
                }
                assert(self.records.recs()[m.uid] == pre_recs[m.uid]);
            }
            assert(self.expiring_has(pt2.timeout, n2) == mid.expiring_has(pt2.timeout, n2));
        }
        assert forall|u: u64| #[trigger]
            self.records.recs().contains_key(u) implies u < self.validator.record_count by {
            assert(mid.records.recs().contains_key(u));
        }
        assert forall|u: u64| #[trigger]
            self.records.recs().contains_key(u) implies self.validator.remembered@.contains_key(
            u,
        ) by {
            assert(mid.records.recs().contains_key(u));
        }
    }

    /// Recompute the non-membership proofs of a transaction against our
    /// current mirror. Fails if any nullifier has meanwhile been
    /// published.
    fn update_nullifier_proofs(&self, txn: &ElaboratedTransaction) -> (r: Result<
        Vec<NulProof>,
        WalletError,
    >)
        requires
            self.wf(),
        ensures
            match r {
                Ok(proofs) => {
                    &&& proofs@.len() == txn.txn.nullifiers@.len()
                    &&& forall|i: int|
                        0 <= i < proofs@.len() ==> (#[trigger] proofs@[i]).version
                            == self.nullifiers.version_spec()
                    &&& forall|i: int|
                        0 <= i < txn.txn.nullifiers@.len() ==> !self.nullifiers.contains_spec(
                            #[trigger] txn.txn.nullifiers@[i],
                        )
                },
                Err(e) => match e {
                    WalletError::NullifierAlreadyPublished { nullifier } => (exists|i: int|
                        0 <= i < txn.txn.nullifiers@.len() && #[trigger] txn.txn.nullifiers@[i]
                            == nullifier && self.nullifiers.contains_spec(nullifier) && (forall|
                        j: int,
                    |
                        0 <= j < i ==> !self.nullifiers.contains_spec(
                            #[trigger] txn.txn.nullifiers@[j],
                        ))),
                    _ => false,
                },
            },
    {
        let mut proofs: Vec<NulProof> = Vec::new();
        let n = txn.txn.nullifiers.len();
        let mut i: usize = 0;
        while i < n
            invariant
                self.wf(),
                n == txn.txn.nullifiers@.len(),
                i <= n,
                proofs@.len() == i,
                forall|m: int|
                    0 <= m < i ==> (#[trigger] proofs@[m]).version
                        == self.nullifiers.version_spec(),
                forall|m: int|
                    0 <= m < i ==> !self.nullifiers.contains_spec(#[trigger] txn.txn.nullifiers@[m]),
            decreases n - i,
        {
            let nl = txn.txn.nullifiers[i];
            let (member, pf) = self.nullifiers.contains(&nl);
            if member {
                proof {
                    assert(txn.txn.nullifiers@[i as int] == nl
                        && self.nullifiers.contains_spec(nl) && (forall|j: int|
                        0 <= j < i ==> !self.nullifiers.contains_spec(
                            #[trigger] txn.txn.nullifiers@[j],
                        )));
                }
                return Err(WalletError::NullifierAlreadyPublished { nullifier: nl });
            }
            proofs.push(pf);
            i += 1;
        }
        Ok(proofs)
    }

    /// Hand over a transaction that already carries its proofs, placing
    /// its inputs on hold.
    fn submit_elaborated_transaction(
        &mut self,
        note: TransactionNote,
        proofs: Vec<NulProof>,
        memos: Vec<ReceiverMemo>,
        sig: MemoSignature,
        freeze_outputs: Vec<RecordOpening>,
    ) -> (r: TransactionBundle)
        requires
            old(self).wf(),
            old(self).validator.prev_commit_time + RECORD_HOLD_TIME <= u64::MAX,
            note.nullifiers@.len() > 0,
            forall|i: int, j: int|
                0 <= i < j < note.nullifiers@.len() ==> note.nullifiers@[i] != note.nullifiers@[j],
            forall|i: int|
                0 <= i < note.nullifiers@.len() ==> old(self).records.nuls().contains_key(
                    #[trigger] note.nullifiers@[i],
                ) && !old(self).records.recs()[note.nullifiers@[i].uid].on_hold_spec(
                    old(self).validator.prev_commit_time,
                ),
        ensures
            final(self).wf(),
            r.txn.txn == note,
            r.txn.proofs == proofs,
            r.memos@ == memos@,
            r.sig == sig,
            final(self).pending_txns@.contains_key(note.nullifiers@[0]),
            ({
                let pt = final(self).pending_txns@[note.nullifiers@[0]];
                &&& pt.nullifiers@ == note.nullifiers@
                &&& pt.receiver_memos@ == memos@
                &&& pt.signature == sig
                &&& pt.freeze_outputs == freeze_outputs
                &&& pt.timeout == old(self).validator.prev_commit_time + RECORD_HOLD_TIME
            }),
            forall|n: Nullifier|
                n != note.nullifiers@[0] ==> ((#[trigger] final(self).pending_txns@.contains_key(n)
                    <==> old(self).pending_txns@.contains_key(n)) && (old(
                self).pending_txns@.contains_key(n) ==> final(self).pending_txns@[n] == old(
                self).pending_txns@[n])),
            forall|u: u64|
                #[trigger] final(self).records.recs().contains_key(u) <==> old(
                self).records.recs().contains_key(u),
            forall|i: int|
                0 <= i < note.nullifiers@.len() ==> final(self).records.recs()[(
                #[trigger] note.nullifiers@[i]).uid].hold_until == Some(
                    (old(self).validator.prev_commit_time + RECORD_HOLD_TIME) as u64,
                ),
            final(self).now == old(self).now,
            final(self).validator == old(self).validator,
            final(self).nullifiers == old(self).nullifiers,
            final(self).auditable_assets == old(self).auditable_assets,
            final(self).defined_assets == old(self).defined_assets,
            final(self).proving_keys == old(self).proving_keys,
            final(self).auditor_key_pair == old(self).auditor_key_pair,
            final(self).freezer_key_pair == old(self).freezer_key_pair,
            final(self).records.nuls() == old(self).records.nuls(),
            final(self).rng == old(self).rng,
    {
        let memos_copy = crate::types::copy_vec(&memos);
        self.add_pending_transaction(&note.nullifiers, memos_copy, sig, freeze_outputs);
        TransactionBundle { txn: ElaboratedTransaction { txn: note, proofs }, memos, sig }
    }

    /// One automatic resubmission after a `BadNullifierProof` reject:
    /// refresh the proofs and, if every input is still ours and free,
    /// hand the transaction back for submission.
    fn try_resubmit(&mut self, txn: &ElaboratedTransaction, pt: PendingTransaction) -> (r: Option<
        TransactionBundle,
    >)
        requires
            old(self).wf(),
            old(self).validator.prev_commit_time + RECORD_HOLD_TIME <= u64::MAX,
            pt.nullifiers@.len() > 0,
            forall|i: int, j: int|
                0 <= i < j < pt.nullifiers@.len() ==> pt.nullifiers@[i] != pt.nullifiers@[j],
        ensures
            final(self).wf(),
            final(self).now == old(self).now,
            final(self).validator == old(self).validator,
            final(self).nullifiers == old(self).nullifiers,
            final(self).auditable_assets == old(self).auditable_assets,
            final(self).defined_assets == old(self).defined_assets,
            final(self).proving_keys == old(self).proving_keys,
            final(self).auditor_key_pair == old(self).auditor_key_pair,
            final(self).freezer_key_pair == old(self).freezer_key_pair,
            match r {
                // The resubmission carries the same note with fresh
                // proofs and the stored memos and signature, and the
                // pending entry and holds are back in place.
                Some(b) => {
                    &&& b.txn.txn.kind == txn.txn.kind
                    &&& b.txn.txn.nullifiers@ == txn.txn.nullifiers@
                    &&& b.txn.txn.nullifiers@ == pt.nullifiers@
                    &&& b.txn.txn.output_commitments@ == txn.txn.output_commitments@
                    &&& b.txn.txn.record_root == txn.txn.record_root
                    &&& b.txn.txn.memo_verif_key == txn.txn.memo_verif_key
                    &&& b.txn.proofs@.len() == pt.nullifiers@.len()
                    &&& forall|i: int|
                        0 <= i < b.txn.proofs@.len() ==> (#[trigger] b.txn.proofs@[i]).version
                            == old(self).nullifiers.version_spec()
                    &&& forall|i: int|
                        0 <= i < pt.nullifiers@.len() ==> !old(self).nullifiers.contains_spec(
                            #[trigger] pt.nullifiers@[i],
                        )
                    &&& b.memos@ == pt.receiver_memos@
                    &&& b.sig == pt.signature
                    &&& final(self).pending_txns@.contains_key(pt.nullifiers@[0])
                    &&& ({
                        let pt2 = final(self).pending_txns@[pt.nullifiers@[0]];
                        &&& pt2.nullifiers@ == pt.nullifiers@
                        &&& pt2.receiver_memos@ == pt.receiver_memos@
                        &&& pt2.signature == pt.signature
                        &&& pt2.freeze_outputs == pt.freeze_outputs
                        &&& pt2.timeout == old(self).validator.prev_commit_time + RECORD_HOLD_TIME
                    })
                    &&& forall|i: int|
                        0 <= i < pt.nullifiers@.len() ==> final(self).records.recs()[(
                        #[trigger] pt.nullifiers@[i]).uid].hold_until == Some(
                            (old(self).validator.prev_commit_time + RECORD_HOLD_TIME) as u64,
                        )
                    &&& forall|n: Nullifier|
                        n != pt.nullifiers@[0] ==> ((
                        #[trigger] final(self).pending_txns@.contains_key(n) <==> old(
                        self).pending_txns@.contains_key(n)) && (old(
                        self).pending_txns@.contains_key(n) ==> final(self).pending_txns@[n]
                            == old(self).pending_txns@[n]))
                },
                None => *final(self) == *old(self),
            },
    {
        let proofs = match self.update_nullifier_proofs(txn) {
            Ok(p) => p,
            Err(_) => {
                return None;
            },
        };
        // The event's transaction must carry exactly the inputs we
        // submitted.
        let n = txn.txn.nullifiers.len();
        if n != pt.nullifiers.len() {
            return None;
        }
        let mut i: usize = 0;
        while i < n
            invariant
                *self == *old(self),
                old(self).wf(),
                n == txn.txn.nullifiers@.len(),
                n == pt.nullifiers@.len(),
                i <= n,
                forall|m: int| 0 <= m < i ==> txn.txn.nullifiers@[m] == pt.nullifiers@[m],
            decreases n - i,
        {
            if !txn.txn.nullifiers[i].key_eq(&pt.nullifiers[i]) {
                return None;
            }
            i += 1;
        }
        // Every input must still be a live record of ours, not on hold.
        let now = self.validator.prev_commit_time;
        let mut j: usize = 0;
        while j < n
            invariant
                *self == *old(self),
                old(self).wf(),
                now == self.validator.prev_commit_time,
                n == pt.nullifiers@.len(),
                j <= n,
                forall|m: int|
                    0 <= m < j ==> self.records.nuls().contains_key(#[trigger] pt.nullifiers@[m])
                        && !self.records.recs()[pt.nullifiers@[m].uid].on_hold_spec(now),
            decreases n - j,
        {
            match self.records.record_with_nullifier(&pt.nullifiers[j]) {
                Some(ri) => {
                    if ri.on_hold(now) {
                        return None;
                    }
                },
                None => {
                    return None;
                },
            }
            j += 1;
        }
        let note2 = copy_note(&txn.txn);
        proof {
            assert forall|a: int, b2: int|
                0 <= a < b2 < note2.nullifiers@.len() implies note2.nullifiers@[a]
                != note2.nullifiers@[b2] by {
                assert(pt.nullifiers@[a] != pt.nullifiers@[b2]);
                assert(note2.nullifiers@[a] == pt.nullifiers@[a]);
            }
            assert forall|a: int|
                0 <= a < note2.nullifiers@.len() implies self.records.nuls().contains_key(
                #[trigger] note2.nullifiers@[a],
            ) && !self.records.recs()[note2.nullifiers@[a].uid].on_hold_spec(
                self.validator.prev_commit_time,
            ) by {
                assert(note2.nullifiers@[a] == pt.nullifiers@[a]);
                assert(self.records.nuls().contains_key(pt.nullifiers@[a]));
            }
        }
        let memos = crate::types::copy_vec(&pt.receiver_memos);
        let bundle = self.submit_elaborated_transaction(
            note2,
            proofs,
            memos,
            pt.signature,
            pt.freeze_outputs,
        );
        Some(bundle)
    }
}


impl WalletState {
    /// One committed transaction: settle it if it was ours, audit it,
    /// collect what we received, publish its nullifiers, and forget
    /// every output leaf nobody cared about.
    #[verifier::rlimit(80)]
    #[verifier::spinoff_prover]
    fn process_committed_txn(
        &mut self,
        session: &WalletSession,
        txn: &ElaboratedTransaction,
        memos: Option<&Vec<ReceiverMemo>>,
        uids_raw: &Vec<u64>,
        offset: usize,
        Ghost(fresh_from): Ghost<u64>,
    )
        requires
            old(self).wf(),
            session.wf(),
            old(self).pending_uids_below(fresh_from),
            offset + txn.txn.output_commitments@.len() <= uids_raw@.len(),
            forall|j: int| 0 <= j < uids_raw@.len() ==> #[trigger] uids_raw@[j] == fresh_from + j,
            fresh_from + uids_raw@.len() == old(self).validator.record_count,
            forall|j: int|
                offset <= j < uids_raw@.len() ==> old(self).validator.remembered@.contains_key(
                    #[trigger] uids_raw@[j],
                ),
            forall|u: u64| #[trigger]
                old(self).records.recs().contains_key(u) ==> (u as int) < fresh_from + offset,
        ensures
            final(self).wf(),
            final(self).pending_uids_below(fresh_from),
            final(self).now == old(self).now,
            final(self).auditable_assets == old(self).auditable_assets,
            final(self).defined_assets == old(self).defined_assets,
            final(self).validator.record_count == old(self).validator.record_count,
            final(self).validator.record_root == old(self).validator.record_root,
            final(self).validator.past_record_roots == old(self).validator.past_record_roots,
            final(self).validator.prev_commit_time == old(self).validator.prev_commit_time,
            final(self).validator.nullifiers == old(self).validator.nullifiers,
            final(self).proving_keys == old(self).proving_keys,
            final(self).auditor_key_pair == old(self).auditor_key_pair,
            final(self).freezer_key_pair == old(self).freezer_key_pair,
            forall|m: Nullifier|
                #[trigger] final(self).nullifiers.contains_spec(m) <==> (old(
                self).nullifiers.contains_spec(m) || seq_has_nul(txn.txn.nullifiers@, m)),
            forall|u: u64| #[trigger]
                final(self).records.recs().contains_key(u) ==> (u as int) < fresh_from + offset
                    + txn.txn.output_commitments@.len(),
            // Of the records known before this block: exactly those
            // whose nullifier this transaction publishes leave; the
            // rest keep uid, opening and hold state, and no new record
            // appears below the block's watermark.
            forall|u: u64|
                u < fresh_from ==> (((#[trigger] final(self).records.recs().contains_key(u)) <==> (
                old(self).records.recs().contains_key(u) && !seq_has_nul(
                    txn.txn.nullifiers@,
                    old(self).records.recs()[u].nullifier_spec(),
                ))) && (final(self).records.recs().contains_key(u) ==> final(
                self).records.recs()[u] == old(self).records.recs()[u])),
            forall|j: int|
                offset + txn.txn.output_commitments@.len() <= j < uids_raw@.len() ==> final(
                self).validator.remembered@.contains_key(#[trigger] uids_raw@[j]),
            forall|n: Nullifier|
                #[trigger] final(self).pending_txns@.contains_key(n) ==> (old(
                self).pending_txns@.contains_key(n) && final(self).pending_txns@[n] == old(
                self).pending_txns@[n]),
            // a committed transaction of ours settles: its pending
            // entry is gone
            txn.txn.nullifiers@.len() > 0 ==> !final(self).pending_txns@.contains_key(
                txn.txn.nullifiers@[0],
            ),
            // every receiver memo addressed to us and matching its
            // commitment is adopted at its fresh uid
            (match memos {
                Some(ms) => ms@.len() == txn.txn.output_commitments@.len() ==> forall|i: int|
                    0 <= i < ms@.len() && (#[trigger] ms@[i]).ro.pub_key == session.key_pair
                        && ms@[i].ro == txn.txn.output_commitments@[i].ro && !seq_has_nul(
                        txn.txn.nullifiers@,
                        nullify_spec(ms@[i].ro, (fresh_from + offset + i) as u64),
                    ) ==> final(
                    self).records.recs().contains_key((fresh_from + offset + i) as u64) && final(
                    self).records.recs()[(fresh_from + offset + i) as u64] == (RecordInfo {
                        ro: ms@[i].ro,
                        uid: (fresh_from + offset + i) as u64,
                        hold_until: None,
                    }),
                None => true,
            }),
            // every usable audit-memo entry is adopted at its fresh
            // uid, unless the matching receiver memo already pinned it
            audit_opens(*old(self), *txn) ==> (forall|k2: int|
                0 <= k2 < txn.txn.audit_memo.unwrap().outputs@.len() && 1 + k2
                    < txn.txn.output_commitments@.len() && audit_entry_usable(
                    *old(self),
                    session.address_book@,
                    #[trigger] txn.txn.audit_memo.unwrap().outputs@[k2],
                ) && !(match memos {
                    Some(ms) => ms@.len() == txn.txn.output_commitments@.len() && ms@[1
                        + k2].ro.pub_key == session.key_pair && ms@[1 + k2].ro
                        == txn.txn.output_commitments@[1 + k2].ro,
                    None => false,
                }) && !seq_has_nul(
                    txn.txn.nullifiers@,
                    nullify_spec(
                        audited_opening(
                            *old(self),
                            session.address_book@,
                            txn.txn.audit_memo.unwrap().outputs@[k2],
                        ),
                        (fresh_from + offset + 1 + k2) as u64,
                    ),
                ) ==> final(self).records.recs().contains_key(
                    (fresh_from + offset + 1 + k2) as u64,
                ) && final(self).records.recs()[(fresh_from + offset + 1 + k2) as u64]
                    == (RecordInfo {
                    ro: audited_opening(
                        *old(self),
                        session.address_book@,
                        txn.txn.audit_memo.unwrap().outputs@[k2],
                    ),
                    uid: (fresh_from + offset + 1 + k2) as u64,
                    hold_until: None,
                })),
    {
        let olen = txn.txn.output_commitments.len();
        let ghost slice_end: int = fresh_from + offset + olen;

        // This transaction's uids, each with a remember flag.
        let n_raw = uids_raw.len();
        let mut this_uids: Vec<(u64, bool)> = Vec::new();
        let mut b: usize = 0;
        while b < olen
            invariant
                *self == *old(self),
                old(self).wf(),
                olen == txn.txn.output_commitments@.len(),
                n_raw == uids_raw@.len(),
                offset + olen <= uids_raw@.len(),
                forall|j: int|
                    0 <= j < uids_raw@.len() ==> #[trigger] uids_raw@[j] == fresh_from + j,
                b <= olen,
                this_uids@.len() == b,
                forall|m: int|
                    0 <= m < b ==> #[trigger] this_uids@[m] == (uids_raw@[offset + m], false),
            decreases olen - b,
        {
            this_uids.push((uids_raw[offset + b], false));
            b += 1;
        }
        let ghost u0 = this_uids@;
        proof {
            assert(fresh_from + uids_raw@.len() == self.validator.record_count);
            assert forall|j: int|
                0 <= j < this_uids@.len() implies fresh_from <= (#[trigger] this_uids@[j]).0
                && this_uids@[j].0 < self.validator.record_count
                && self.validator.remembered@.contains_key(this_uids@[j].0) by {
                assert(this_uids@[j] == (uids_raw@[offset + j], false));
                assert(uids_raw@[offset + j] == fresh_from + offset + j);
            }
            assert forall|p2: int, q: int|
                0 <= p2 < q < this_uids@.len() implies (#[trigger] this_uids@[p2]).0 != (
            #[trigger] this_uids@[q]).0 by {
                assert(this_uids@[p2] == (uids_raw@[offset + p2], false));
                assert(this_uids@[q] == (uids_raw@[offset + q], false));
                assert(uids_raw@[offset + p2] == fresh_from + offset + p2);
                assert(uids_raw@[offset + q] == fresh_from + offset + q);
            }
            assert(uids_ok(*self, this_uids@, fresh_from));
        }

        // Settle our own pending transaction, if this is one.
        self.clear_pending_on_commit(txn, &mut this_uids, Ghost(fresh_from));
        let ghost s1 = *self;
        let ghost u1 = this_uids@;
        // Audit, if we can open the memo.
        self.audit_transaction(session, txn, &mut this_uids, Ghost(fresh_from));
        let ghost s2 = *self;
        let ghost u2 = this_uids@;
        // Receive what decrypts under our key.
        match memos {
            Some(ms) => {
                self.receive_transaction_outputs(
                    session,
                    txn,
                    ms,
                    &mut this_uids,
                    Ghost(fresh_from),
                );
            },
            None => {},
        }
        let ghost s3 = *self;
        let ghost u3 = this_uids@;
        proof {
            assert(uids_evolved(u0, u1));
            assert(uids_evolved(u1, u2));
            assert(uids_evolved(u2, u3));
            // Everything known now lies below the end of this slice.
            assert forall|u: u64| #[trigger]
                s3.records.recs().contains_key(u) implies (u as int) < slice_end by {
                if (u as int) >= slice_end {
                    assert forall|j: int| 0 <= j < u3.len() implies (#[trigger] u3[j]).0 != u by {
                        assert(u1[j].0 == u0[j].0);
                        assert(u2[j].0 == u1[j].0);
                        assert(u3[j].0 == u2[j].0);
                        assert(u0[j] == (uids_raw@[offset + j], false));
                        assert(uids_raw@[offset + j] == fresh_from + offset + j);
                    }
                    assert forall|j: int| 0 <= j < u2.len() implies (#[trigger] u2[j]).0 != u by {
                        assert(u2[j].0 == u3[j].0);
                        assert(u3[j].0 != u);
                    }
                    assert forall|j: int| 0 <= j < u1.len() implies (#[trigger] u1[j]).0 != u by {
                        assert(u1[j].0 == u2[j].0);
                        assert(u2[j].0 != u);
                    }
                    assert(u >= fresh_from);
                    assert(s2.records.recs().contains_key(u));
                    assert(s1.records.recs().contains_key(u));
                    assert(old(self).records.recs().contains_key(u));
                    assert((u as int) < fresh_from + offset);
                }
            }
            // Records known before the block are untouched by the
            // adoption steps.
            assert forall|u: u64|
                u < fresh_from implies ((#[trigger] s3.records.recs().contains_key(u) <==> old(
                self).records.recs().contains_key(u)) && (s3.records.recs().contains_key(u)
                ==> s3.records.recs()[u] == old(self).records.recs()[u])) by {
                assert(s1.records.recs().contains_key(u) <==> old(
                self).records.recs().contains_key(u));
                assert(s2.records.recs().contains_key(u) <==> s1.records.recs().contains_key(u));
                assert(s3.records.recs().contains_key(u) <==> s2.records.recs().contains_key(u));
                if old(self).records.recs().contains_key(u) {
                    assert(s1.records.recs()[u] == old(self).records.recs()[u]);
                    assert(s2.records.recs()[u] == s1.records.recs()[u]);
                    if s3.records.recs().contains_key(u) {
                        assert(s3.records.recs()[u] == s2.records.recs()[u]);
                    }
                }
            }
            // The flags that stayed false mark leaves we never adopted.
            assert forall|j: int|
                0 <= j < u3.len() && !(#[trigger] u3[j]).1 implies !s3.records.recs().contains_key(
                u3[j].0,
            ) by {
                assert(!u2[j].1);
                assert(!u1[j].1);
                assert(!u0[j].1);
                assert(u1[j].0 == u0[j].0);
                assert(u2[j].0 == u1[j].0);
                assert(u3[j].0 == u2[j].0);
                assert(s3.records.recs().contains_key(u3[j].0)
                    <==> s2.records.recs().contains_key(u3[j].0));
                assert(s2.records.recs().contains_key(u2[j].0)
                    <==> s1.records.recs().contains_key(u2[j].0));
                assert(s1.records.recs().contains_key(u1[j].0) <==> old(
                self).records.recs().contains_key(u1[j].0));
                assert(u0[j] == (uids_raw@[offset + j], false));
                assert(u0[j].0 == fresh_from + offset + j);
                if old(self).records.recs().contains_key(u0[j].0) {
                    assert((u0[j].0 as int) < fresh_from + offset);
                }
            }
        }

        proof {
            assert forall|j: int| 0 <= j < u3.len() implies (#[trigger] u3[j]).0 == fresh_from
                + offset + j by {
                assert(u1[j].0 == u0[j].0);
                assert(u2[j].0 == u1[j].0);
                assert(u3[j].0 == u2[j].0);
                assert(u0[j] == (uids_raw@[offset + j], false));
                assert(uids_raw@[offset + j] == fresh_from + offset + j);
            }
        }

        // Publish the spent nullifiers and drop our spent records.
        let ilen = txn.txn.nullifiers.len();
        let mut k2: usize = 0;
        while k2 < ilen
            invariant
                old(self).wf(),
                self.wf(),
                self.pending_uids_below(fresh_from),
                ilen == txn.txn.nullifiers@.len(),
                k2 <= ilen,
                olen == txn.txn.output_commitments@.len(),
                slice_end == fresh_from + offset + olen,
                offset + olen <= uids_raw@.len(),
                forall|j: int|
                    0 <= j < uids_raw@.len() ==> #[trigger] uids_raw@[j] == fresh_from + j,
                self.now == s3.now,
                self.auditable_assets == s3.auditable_assets,
                self.defined_assets == s3.defined_assets,
                self.proving_keys == s3.proving_keys,
                self.auditor_key_pair == s3.auditor_key_pair,
                self.freezer_key_pair == s3.freezer_key_pair,
                self.validator.record_count == s3.validator.record_count,
                self.validator.record_root == s3.validator.record_root,
                self.validator.past_record_roots == s3.validator.past_record_roots,
                self.validator.prev_commit_time == s3.validator.prev_commit_time,
                self.validator.nullifiers == s3.validator.nullifiers,
                fresh_from + uids_raw@.len() == self.validator.record_count,
                forall|m: Nullifier|
                    #[trigger] self.nullifiers.contains_spec(m) <==> (s3.nullifiers.contains_spec(m)
                        || (exists|x: int|
                        0 <= x < k2 && #[trigger] txn.txn.nullifiers@[x] == m)),
                forall|u: u64| #[trigger]
                    self.records.recs().contains_key(u) ==> (u as int) < slice_end,
                forall|u: u64|
                    u < fresh_from ==> (((#[trigger] self.records.recs().contains_key(u)) <==> (
                    old(self).records.recs().contains_key(u) && !(exists|x: int|
                        0 <= x < k2 && #[trigger] txn.txn.nullifiers@[x] == old(
                        self).records.recs()[u].nullifier_spec()))) && (
                    self.records.recs().contains_key(u) ==> self.records.recs()[u] == old(
                    self).records.recs()[u])),
                forall|j: int|
                    offset + olen <= j < uids_raw@.len()
                        ==> self.validator.remembered@.contains_key(#[trigger] uids_raw@[j]),
                forall|j: int|
                    0 <= j < u3.len() && !(#[trigger] u3[j]).1
                        ==> !self.records.recs().contains_key(u3[j].0),
                u3.len() == olen,
                forall|j: int| 0 <= j < u3.len() ==> (#[trigger] u3[j]).0 == fresh_from + offset + j,
                forall|n: Nullifier|
                    #[trigger] self.pending_txns@.contains_key(n)
                        ==> (s3.pending_txns@.contains_key(n) && self.pending_txns@[n]
                        == s3.pending_txns@[n]),
                forall|u: u64|
                    #[trigger] s3.records.recs().contains_key(u) && !seq_has_nul(
                        txn.txn.nullifiers@,
                        s3.records.recs()[u].nullifier_spec(),
                    ) ==> (self.records.recs().contains_key(u) && self.records.recs()[u]
                        == s3.records.recs()[u]),
            decreases ilen - k2,
        {
            let ghost pre = *self;
            let n = txn.txn.nullifiers[k2];
            self.spend_nullifier(n);
            k2 += 1;
            proof {
                assert forall|u: u64|
                    u < fresh_from implies (((#[trigger] self.records.recs().contains_key(u)) <==> (
                old(self).records.recs().contains_key(u) && !(exists|x: int|
                    0 <= x < k2 && #[trigger] txn.txn.nullifiers@[x] == old(
                    self).records.recs()[u].nullifier_spec()))) && (
                self.records.recs().contains_key(u) ==> self.records.recs()[u] == old(
                self).records.recs()[u])) by {
                    let mu = old(self).records.recs()[u].nullifier_spec();
                    if !old(self).records.recs().contains_key(u) {
                        assert(!pre.records.recs().contains_key(u));
                        assert(!self.records.recs().contains_key(u));
                    } else if pre.records.recs().contains_key(u) {
                        assert(pre.records.recs()[u] == old(self).records.recs()[u]);
                        // removal in this step happens exactly when the
                        // published nullifier is this record's
                        if pre.records.nuls().contains_key(n) && n.uid == u {
                            assert(pre.records.recs()[u].nullifier_spec() == n);
                            assert(mu == n);
                            assert(txn.txn.nullifiers@[k2 - 1] == n);
                        }
                        if mu == n {
                            assert(pre.records.nuls().contains_key(
                                pre.records.recs()[u].nullifier_spec(),
                            ));
                            assert(mu.uid == u);
                        }
                        if self.records.recs().contains_key(u) {
                            assert(self.records.recs()[u] == pre.records.recs()[u]);
                        }
                    } else {
                        let x = choose|x: int|
                            0 <= x < k2 - 1 && #[trigger] txn.txn.nullifiers@[x] == mu;
                        assert(txn.txn.nullifiers@[x] == mu);
                        assert(!self.records.recs().contains_key(u));
                    }
                    if exists|x: int| 0 <= x < k2 && #[trigger] txn.txn.nullifiers@[x] == mu {
                        let x = choose|x: int|
                            0 <= x < k2 && #[trigger] txn.txn.nullifiers@[x] == mu;
                        if x < k2 - 1 {
                            assert(!pre.records.recs().contains_key(u));
                        }
                    }
                }
                assert forall|m: Nullifier|
                    #[trigger] self.nullifiers.contains_spec(m) <==> (s3.nullifiers.contains_spec(m)
                        || (exists|x: int|
                        0 <= x < k2 && #[trigger] txn.txn.nullifiers@[x] == m)) by {
                    if self.nullifiers.contains_spec(m) && !s3.nullifiers.contains_spec(m) {
                        if m == n {
                            assert(txn.txn.nullifiers@[k2 - 1] == m);
                        } else {
                            assert(pre.nullifiers.contains_spec(m));
                            let x = choose|x: int|
                                0 <= x < k2 - 1 && #[trigger] txn.txn.nullifiers@[x] == m;
                            assert(txn.txn.nullifiers@[x] == m);
                        }
                    }
                    if exists|x: int| 0 <= x < k2 && #[trigger] txn.txn.nullifiers@[x] == m {
                        let x = choose|x: int| 0 <= x < k2 && #[trigger] txn.txn.nullifiers@[x] == m;
                        if x < k2 - 1 {
                            assert(pre.nullifiers.contains_spec(m));
                        } else {
                            assert(m == n);
                        }
                    }
                }
                assert forall|j: int|
                    offset + olen <= j < uids_raw@.len()
                    implies self.validator.remembered@.contains_key(#[trigger] uids_raw@[j]) by {
                    assert(pre.validator.remembered@.contains_key(uids_raw@[j]));
                    if pre.records.nuls().contains_key(n) && uids_raw@[j] == n.uid {
                        assert(pre.records.recs().contains_key(n.uid));
                        assert((n.uid as int) < slice_end);
                        assert(uids_raw@[j] == fresh_from + j);
                    }
                }
            }
        }
        let ghost s4 = *self;

        // Forget the output leaves nobody flagged.
        let flen = this_uids.len();
        let mut k3: usize = 0;
        while k3 < flen
            invariant
                self.wf(),
                self.pending_uids_below(fresh_from),
                flen == this_uids@.len(),
                this_uids@ == u3,
                u3.len() == olen,
                k3 <= flen,
                olen == txn.txn.output_commitments@.len(),
                slice_end == fresh_from + offset + olen,
                offset + olen <= uids_raw@.len(),
                forall|j: int|
                    0 <= j < uids_raw@.len() ==> #[trigger] uids_raw@[j] == fresh_from + j,
                forall|j: int| 0 <= j < u3.len() ==> (#[trigger] u3[j]).0 == fresh_from + offset + j,
                self.now == s4.now,
                self.rng == s4.rng,
                self.records == s4.records,
                self.nullifiers == s4.nullifiers,
                self.pending_txns == s4.pending_txns,
                self.expiring_txns == s4.expiring_txns,
                self.auditable_assets == s4.auditable_assets,
                self.defined_assets == s4.defined_assets,
                self.proving_keys == s4.proving_keys,
                self.auditor_key_pair == s4.auditor_key_pair,
                self.freezer_key_pair == s4.freezer_key_pair,
                self.validator.record_count == s4.validator.record_count,
                self.validator.record_root == s4.validator.record_root,
                self.validator.past_record_roots == s4.validator.past_record_roots,
                self.validator.prev_commit_time == s4.validator.prev_commit_time,
                self.validator.nullifiers == s4.validator.nullifiers,
                forall|j: int|
                    0 <= j < u3.len() && !(#[trigger] u3[j]).1
                        ==> !self.records.recs().contains_key(u3[j].0),
                forall|j: int|
                    offset + olen <= j < uids_raw@.len()
                        ==> self.validator.remembered@.contains_key(#[trigger] uids_raw@[j]),
            decreases flen - k3,
        {
            let pair = this_uids[k3];
            if !pair.1 {
                let ghost pre = *self;
                self.validator.forget(pair.0);
                proof {
                    assert(!pre.records.recs().contains_key(pair.0));
                    assert forall|u: u64| #[trigger]
                        self.records.recs().contains_key(u)
                        implies self.validator.remembered@.contains_key(u) by {
                        assert(pre.records.recs().contains_key(u));
                        assert(u != pair.0);
                    }
                    assert forall|j: int|
                        offset + olen <= j < uids_raw@.len()
                        implies self.validator.remembered@.contains_key(
                        #[trigger] uids_raw@[j],
                    ) by {
                        assert(pre.validator.remembered@.contains_key(uids_raw@[j]));
                        assert(uids_raw@[j] == fresh_from + j);
                        assert((pair.0 as int) < slice_end);
                    }
                }
            }
            k3 += 1;
        }
        proof {
            // the audit adoption carries through the receive, spend and
            // prune phases
            if audit_opens(*old(self), *txn) {
                assert(audit_opens(s1, *txn));
                assert forall|k2: int|
                    0 <= k2 < txn.txn.audit_memo.unwrap().outputs@.len() && 1 + k2
                        < txn.txn.output_commitments@.len() && audit_entry_usable(
                        *old(self),
                        session.address_book@,
                        #[trigger] txn.txn.audit_memo.unwrap().outputs@[k2],
                    ) && !(match memos {
                        Some(ms) => ms@.len() == txn.txn.output_commitments@.len() && ms@[1
                            + k2].ro.pub_key == session.key_pair && ms@[1 + k2].ro
                            == txn.txn.output_commitments@[1 + k2].ro,
                        None => false,
                    }) && !seq_has_nul(
                        txn.txn.nullifiers@,
                        nullify_spec(
                            audited_opening(
                                *old(self),
                                session.address_book@,
                                txn.txn.audit_memo.unwrap().outputs@[k2],
                            ),
                            (fresh_from + offset + 1 + k2) as u64,
                        ),
                    ) implies self.records.recs().contains_key(
                    (fresh_from + offset + 1 + k2) as u64,
                ) && self.records.recs()[(fresh_from + offset + 1 + k2) as u64] == (RecordInfo {
                    ro: audited_opening(
                        *old(self),
                        session.address_book@,
                        txn.txn.audit_memo.unwrap().outputs@[k2],
                    ),
                    uid: (fresh_from + offset + 1 + k2) as u64,
                    hold_until: None,
                }) by {
                    let d = txn.txn.audit_memo.unwrap().outputs@[k2];
                    let uid = (fresh_from + offset + 1 + k2) as u64;
                    let ro = audited_opening(*old(self), session.address_book@, d);
                    assert(audit_entry_usable(s1, session.address_book@, d));
                    assert(audited_opening(s1, session.address_book@, d) == ro);
                    assert(u1[1 + k2].0 == u0[1 + k2].0);
                    assert(u0[1 + k2] == (uids_raw@[offset + 1 + k2], false));
                    assert(uids_raw@[offset + 1 + k2] == fresh_from + offset + 1 + k2);
                    assert(1 + k2 < u1.len());
                    assert(s2.records.recs().contains_key(u1[1 + k2].0));
                    assert(s2.records.recs()[u1[1 + k2].0] == (RecordInfo {
                        ro,
                        uid,
                        hold_until: None,
                    }));
                    match memos {
                        Some(ms) => {
                            assert(u2[1 + k2].0 == uid);
                            assert(s3.records.recs().contains_key(uid));
                            assert(s3.records.recs()[uid] == s2.records.recs()[uid]);
                        },
                        None => {},
                    }
                    assert(s3.records.recs().contains_key(uid));
                    assert(s3.records.recs()[uid] == (RecordInfo { ro, uid, hold_until: None }));
                    assert(s3.records.recs()[uid].nullifier_spec() == nullify_spec(ro, uid));
                    assert(self.records.recs().contains_key(uid));
                    assert(self.records.recs()[uid] == s3.records.recs()[uid]);
                }
            }
        }
    }
}


impl WalletState {
    /// Consume one ledger event: advance the local clock, re-validate a
    /// committed block against our mirror and work its transactions
    /// through settlement, auditing, receiving, spending and pruning;
    /// or, on a reject, drop the failed transaction and, when only its
    /// nullifier proofs went stale, resubmit it once with fresh proofs.
    /// Returns the transactions to hand back to the backend.
    pub fn handle_event(&mut self, session: &WalletSession, event: &LedgerEvent) -> (r: Vec<
        TransactionBundle,
    >)
        requires
            old(self).wf(),
            session.wf(),
            old(self).now < u64::MAX,
            old(self).validator.prev_commit_time < u64::MAX - RECORD_HOLD_TIME,
        ensures
            final(self).wf(),
            final(self).now == old(self).now + 1,
            final(self).proving_keys == old(self).proving_keys,
            final(self).auditor_key_pair == old(self).auditor_key_pair,
            final(self).freezer_key_pair == old(self).freezer_key_pair,
            match event {
                LedgerEvent::Commit(block, memos) => {
                    &&& (old(self).validator.block_valid(block) ==> {
                        &&& final(self).validator.prev_commit_time == old(self).validator.prev_commit_time + 1
                        &&& forall|n: Nullifier|
                            crate::validator::block_has_nullifier(block, n) ==> #[trigger] final(self).nullifiers.contains_spec(n)
                        // records leave exactly when their nullifier
                        // appears in the block; the rest keep uid,
                        // opening and hold state
                        &&& forall|u: u64|
                            #[trigger] old(self).records.recs().contains_key(u) ==> ((final(self).records.recs().contains_key(u)
                                <==> !crate::validator::block_has_nullifier(
                                block,
                                old(self).records.recs()[u].nullifier_spec(),
                            )) && (final(self).records.recs().contains_key(u) ==> final(self).records.recs()[u]
                                == old(self).records.recs()[u]))
                        &&& r@.len() == 0
                        // pending entries only settle or expire
                        &&& forall|n: Nullifier|
                            #[trigger] final(self).pending_txns@.contains_key(n) ==> (old(self).pending_txns@.contains_key(n) && final(self).pending_txns@[n] == old(self).pending_txns@[n])
                        // for a single-transaction block with its memo
                        // list: our pending entry settles, every memo
                        // addressed to us is adopted at its fresh uid,
                        // and so is every usable audit-memo entry
                        &&& ((block.txns@.len() == 1 && memos@.len() == 1) ==> {
                            let txn0 = block.txns@[0];
                            let ms0 = memos@[0];
                            let base = old(self).validator.record_count;
                            &&& (txn0.txn.nullifiers@.len() > 0 ==> !final(self).pending_txns@.contains_key(txn0.txn.nullifiers@[0]))
                            &&& (ms0@.len() == txn0.txn.output_commitments@.len() ==> forall|i: int|
                                0 <= i < ms0@.len() && (#[trigger] ms0@[i]).ro.pub_key == session.key_pair
                                    && ms0@[i].ro == txn0.txn.output_commitments@[i].ro && !seq_has_nul(
                                    txn0.txn.nullifiers@,
                                    nullify_spec(ms0@[i].ro, (base + i) as u64),
                                ) ==> final(self).records.recs().contains_key((base + i) as u64)
                                    && final(self).records.recs()[(base + i) as u64] == (RecordInfo {
                                    ro: ms0@[i].ro,
                                    uid: (base + i) as u64,
                                    hold_until: None,
                                }))
                            &&& (audit_opens(*old(self), txn0) ==> (forall|k2: int|
                                0 <= k2 < txn0.txn.audit_memo.unwrap().outputs@.len() && 1 + k2
                                    < txn0.txn.output_commitments@.len() && audit_entry_usable(
                                    *old(self),
                                    session.address_book@,
                                    #[trigger] txn0.txn.audit_memo.unwrap().outputs@[k2],
                                ) && !(ms0@.len() == txn0.txn.output_commitments@.len() && ms0@[1
                                    + k2].ro.pub_key == session.key_pair && ms0@[1 + k2].ro
                                    == txn0.txn.output_commitments@[1 + k2].ro) && !seq_has_nul(
                                    txn0.txn.nullifiers@,
                                    nullify_spec(
                                        audited_opening(
                                            *old(self),
                                            session.address_book@,
                                            txn0.txn.audit_memo.unwrap().outputs@[k2],
                                        ),
                                        (base + 1 + k2) as u64,
                                    ),
                                ) ==> final(self).records.recs().contains_key((base + 1 + k2) as u64)
                                    && final(self).records.recs()[(base + 1 + k2) as u64] == (RecordInfo {
                                    ro: audited_opening(
                                        *old(self),
                                        session.address_book@,
                                        txn0.txn.audit_memo.unwrap().outputs@[k2],
                                    ),
                                    uid: (base + 1 + k2) as u64,
                                    hold_until: None,
                                })))
                        })
                    })
                    &&& (!old(self).validator.block_valid(block) ==> {
                        &&& final(self).validator == old(self).validator
                        &&& final(self).records == old(self).records
                        &&& final(self).pending_txns == old(self).pending_txns
                        &&& final(self).expiring_txns == old(self).expiring_txns
                        &&& final(self).nullifiers == old(self).nullifiers
                        &&& final(self).auditable_assets == old(self).auditable_assets
                        &&& final(self).defined_assets == old(self).defined_assets
                        &&& r@.len() == 0
                    })
                },
                LedgerEvent::Reject(block, err) => {
                    &&& final(self).validator == old(self).validator
                    &&& forall|n: Nullifier|
                        #[trigger] final(self).nullifiers.contains_spec(n) <==> old(self).nullifiers.contains_spec(n)
                    &&& final(self).auditable_assets == old(self).auditable_assets
                    &&& final(self).defined_assets == old(self).defined_assets
                    &&& r@.len() <= block.txns@.len()
                    // For a single-transaction reject of one of our
                    // pending transactions: the entry is cleared, its
                    // holds released, and exactly when the error is a
                    // stale nullifier proof and the inputs are still
                    // ours, the same note is handed back with fresh
                    // proofs, its holds and pending entry re-placed.
                    &&& ((block.txns@.len() == 1 && block.txns@[0].txn.nullifiers@.len() > 0 && old(self).pending_txns@.contains_key(block.txns@[0].txn.nullifiers@[0])) ==> {
                        let f = block.txns@[0].txn.nullifiers@[0];
                        let pt = old(self).pending_txns@[f];
                        &&& (final(self).pending_txns@.contains_key(f) <==> r@.len() == 1)
                        &&& (!(err is BadNullifierProof) ==> r@.len() == 0)
                        &&& (r@.len() == 0 ==> forall|i: int|
                            0 <= i < pt.nullifiers@.len() && final(self).records.nuls().contains_key(#[trigger] pt.nullifiers@[i])
                                ==> final(self).records.recs()[pt.nullifiers@[i].uid].hold_until is None)
                        &&& (r@.len() == 1 ==> {
                            &&& r@[0].txn.txn.nullifiers@ == pt.nullifiers@
                            &&& r@[0].txn.txn.kind == block.txns@[0].txn.kind
                            &&& r@[0].txn.txn.output_commitments@ == block.txns@[0].txn.output_commitments@
                            &&& r@[0].txn.txn.record_root == block.txns@[0].txn.record_root
                            &&& r@[0].txn.txn.memo_verif_key == block.txns@[0].txn.memo_verif_key
                            &&& r@[0].memos@ == pt.receiver_memos@
                            &&& r@[0].sig == pt.signature
                            &&& r@[0].txn.proofs@.len() == pt.nullifiers@.len()
                            &&& forall|i: int|
                                0 <= i < r@[0].txn.proofs@.len() ==> (#[trigger] r@[0].txn.proofs@[i]).version == old(self).nullifiers.version_spec()
                            &&& final(self).pending_txns@.contains_key(f)
                            &&& final(self).pending_txns@[f].nullifiers@ == pt.nullifiers@
                            &&& final(self).pending_txns@[f].timeout == old(self).validator.prev_commit_time + RECORD_HOLD_TIME
                            &&& forall|i: int|
                                0 <= i < pt.nullifiers@.len() ==> final(self).records.recs()[(#[trigger] pt.nullifiers@[i]).uid].hold_until == Some(
                                    (old(self).validator.prev_commit_time + RECORD_HOLD_TIME) as u64,
                                )
                        })
                    })
                },
            },
    {
        self.now = self.now + 1;
        let mut resubmissions: Vec<TransactionBundle> = Vec::new();
        match event {
            LedgerEvent::Commit(block, receiver_memos) => {
                // Do not trust the wire: re-validate against our local
                // mirror and ignore the block if it does not verify.
                let ghost fresh_from = self.validator.record_count;
                let step_to = self.validator.prev_commit_time + 1;
                let vres = self.validator.validate_and_apply(step_to, block, true);
                let uids_raw = match vres {
                    Ok(u) => u,
                    Err(_) => {
                        return resubmissions;
                    },
                };
                proof {
                    assert(self.wf_loose()) by {
                        assert forall|n: Nullifier| #[trigger]
                            self.pending_txns@.contains_key(n) implies self.pending_ok_loose(
                            n,
                            self.pending_txns@[n],
                        ) by {
                            assert(old(self).pending_ok(n, old(self).pending_txns@[n]));
                        }
                        assert forall|u: u64| #[trigger]
                            self.records.recs().contains_key(u)
                            implies self.validator.remembered@.contains_key(u) by {
                            assert(old(self).records.recs().contains_key(u));
                            assert(old(self).validator.remembered@.contains_key(u));
                        }
                        assert forall|u: u64| #[trigger]
                            self.records.recs().contains_key(u)
                            implies u < self.validator.record_count by {
                            assert(old(self).records.recs().contains_key(u));
                        }
                    }
                }
                // Some transactions may just have expired; drop them
                // before any per-transaction bookkeeping.
                self.clear_expired_transactions();
                let ghost s_base = *self;
                proof {
                    assert(self.pending_uids_below(fresh_from)) by {
                        assert forall|n: Nullifier, i: int|
                            #[trigger] self.pending_txns@.contains_key(n) && 0 <= i
                                < self.pending_txns@[n].nullifiers@.len() implies (
                        #[trigger] self.pending_txns@[n].nullifiers@[i]).uid < fresh_from by {
                            assert(old(self).pending_txns@.contains_key(n));
                            assert(old(self).pending_ok(n, old(self).pending_txns@[n]));
                        }
                    }
                }

                proof {
                    assert forall|u: u64|
                        #[trigger] old(self).records.recs().contains_key(u) implies u < fresh_from
                        && self.records.recs().contains_key(u) && self.records.recs()[u] == old(
                        self).records.recs()[u] by {
                        assert(self.records == s_base.records);
                    }
                }

                // Work through the block, one transaction at a time;
                // each consumes its own span of the fresh uids.
                let n_txns = block.txns.len();
                let total = uids_raw.len();
                let mut offset: usize = 0;
                let mut t: usize = 0;
                while t < n_txns
                    invariant
                        session.wf(),
                        old(self).wf(),
                        self.wf(),
                        fresh_from == old(self).validator.record_count,
                        self.pending_uids_below(fresh_from),
                        n_txns == block.txns@.len(),
                        t <= n_txns,
                        total == uids_raw@.len(),
                        total == crate::validator::block_total_outputs(block),
                        forall|j: int|
                            0 <= j < uids_raw@.len() ==> #[trigger] uids_raw@[j] == fresh_from + j,
                        offset == crate::validator::block_outputs_upto(block, t as int),
                        offset <= total,
                        fresh_from + uids_raw@.len() == self.validator.record_count,
                        self.validator.prev_commit_time == s_base.validator.prev_commit_time,
                        self.validator.record_count == s_base.validator.record_count,
                        self.validator.record_root == s_base.validator.record_root,
                        self.validator.past_record_roots == s_base.validator.past_record_roots,
                        self.validator.nullifiers == s_base.validator.nullifiers,
                        self.now == s_base.now,
                        self.auditable_assets == s_base.auditable_assets,
                        self.defined_assets == s_base.defined_assets,
                        self.proving_keys == old(self).proving_keys,
                        self.auditor_key_pair == old(self).auditor_key_pair,
                        self.freezer_key_pair == old(self).freezer_key_pair,
                        self.auditable_assets == old(self).auditable_assets,
                        self.defined_assets == old(self).defined_assets,
                        forall|n: Nullifier|
                            #[trigger] self.pending_txns@.contains_key(n) ==> (old(self).pending_txns@.contains_key(n) && self.pending_txns@[n] == old(self).pending_txns@[n]),
                        (n_txns == 1 && t == 1 && receiver_memos@.len() == 1) ==> ({
                            let txn0 = block.txns@[0];
                            let ms0 = receiver_memos@[0];
                            let base = old(self).validator.record_count;
                            &&& (txn0.txn.nullifiers@.len() > 0 ==> !self.pending_txns@.contains_key(txn0.txn.nullifiers@[0]))
                            &&& (ms0@.len() == txn0.txn.output_commitments@.len() ==> forall|i: int|
                                0 <= i < ms0@.len() && (#[trigger] ms0@[i]).ro.pub_key == session.key_pair
                                    && ms0@[i].ro == txn0.txn.output_commitments@[i].ro && !seq_has_nul(
                                    txn0.txn.nullifiers@,
                                    nullify_spec(ms0@[i].ro, (base + i) as u64),
                                ) ==> self.records.recs().contains_key((base + i) as u64)
                                    && self.records.recs()[(base + i) as u64] == (RecordInfo {
                                    ro: ms0@[i].ro,
                                    uid: (base + i) as u64,
                                    hold_until: None,
                                }))
                            &&& (audit_opens(*old(self), txn0) ==> (forall|k2: int|
                                0 <= k2 < txn0.txn.audit_memo.unwrap().outputs@.len() && 1 + k2
                                    < txn0.txn.output_commitments@.len() && audit_entry_usable(
                                    *old(self),
                                    session.address_book@,
                                    #[trigger] txn0.txn.audit_memo.unwrap().outputs@[k2],
                                ) && !(ms0@.len() == txn0.txn.output_commitments@.len() && ms0@[1
                                    + k2].ro.pub_key == session.key_pair && ms0@[1 + k2].ro
                                    == txn0.txn.output_commitments@[1 + k2].ro) && !seq_has_nul(
                                    txn0.txn.nullifiers@,
                                    nullify_spec(
                                        audited_opening(
                                            *old(self),
                                            session.address_book@,
                                            txn0.txn.audit_memo.unwrap().outputs@[k2],
                                        ),
                                        (base + 1 + k2) as u64,
                                    ),
                                ) ==> self.records.recs().contains_key((base + 1 + k2) as u64)
                                    && self.records.recs()[(base + 1 + k2) as u64] == (RecordInfo {
                                    ro: audited_opening(
                                        *old(self),
                                        session.address_book@,
                                        txn0.txn.audit_memo.unwrap().outputs@[k2],
                                    ),
                                    uid: (base + 1 + k2) as u64,
                                    hold_until: None,
                                })))
                        }),
                        forall|j: int|
                            offset <= j < uids_raw@.len()
                                ==> self.validator.remembered@.contains_key(
                                #[trigger] uids_raw@[j],
                            ),
                        forall|u: u64| #[trigger]
                            self.records.recs().contains_key(u) ==> (u as int) < fresh_from
                                + offset,
                        forall|u: u64|
                            #[trigger] old(self).records.recs().contains_key(u) ==> ((
                            self.records.recs().contains_key(u) <==> !(exists|x: int|
                                0 <= x < crate::validator::block_nulls_upto(block, t as int).len()
                                    && #[trigger] crate::validator::block_nulls_upto(
                                    block,
                                    t as int,
                                )[x] == old(self).records.recs()[u].nullifier_spec())) && (
                            self.records.recs().contains_key(u) ==> self.records.recs()[u] == old(
                            self).records.recs()[u])),
                        forall|m: Nullifier|
                            #[trigger] self.nullifiers.contains_spec(m) <==> (
                            s_base.nullifiers.contains_spec(m) || (exists|x: int|
                                0 <= x < crate::validator::block_nulls_upto(block, t as int).len()
                                    && #[trigger] crate::validator::block_nulls_upto(
                                    block,
                                    t as int,
                                )[x] == m)),
                        resubmissions@.len() == 0,
                    decreases n_txns - t,
                {
                    proof {
                        crate::validator::lemma_block_outputs_bound(block, t as int);
                    }
                    let txn = &block.txns[t];
                    let olen = txn.txn.output_commitments.len();
                    let memos_opt: Option<&Vec<ReceiverMemo>> = if t < receiver_memos.len() {
                        Some(&receiver_memos[t])
                    } else {
                        None
                    };
                    let ghost pre_t = *self;
                    self.process_committed_txn(
                        session,
                        txn,
                        memos_opt,
                        &uids_raw,
                        offset,
                        Ghost(fresh_from),
                    );
                    offset = offset + olen;
                    t += 1;
                    proof {
                        let prev_nulls = crate::validator::block_nulls_upto(block, t - 1);
                        let cur_nulls = crate::validator::block_nulls_upto(block, t as int);
                        assert(cur_nulls == prev_nulls + block.txns@[t - 1].txn.nullifiers@);
                        assert forall|m: Nullifier|
                            #[trigger] self.nullifiers.contains_spec(m) <==> (
                        s_base.nullifiers.contains_spec(m) || (exists|x: int|
                            0 <= x < cur_nulls.len() && #[trigger] cur_nulls[x] == m)) by {
                            if self.nullifiers.contains_spec(m) && !s_base.nullifiers.contains_spec(
                                m,
                            ) {
                                if seq_has_nul(block.txns@[t - 1].txn.nullifiers@, m) {
                                    let y = choose|y: int|
                                        0 <= y < block.txns@[t - 1].txn.nullifiers@.len()
                                            && #[trigger] block.txns@[t - 1].txn.nullifiers@[y]
                                            == m;
                                    assert(cur_nulls[prev_nulls.len() + y] == m);
                                } else {
                                    assert(pre_t.nullifiers.contains_spec(m));
                                    let x = choose|x: int|
                                        0 <= x < prev_nulls.len() && #[trigger] prev_nulls[x] == m;
                                    assert(cur_nulls[x] == m);
                                }
                            }
                            if exists|x: int| 0 <= x < cur_nulls.len() && #[trigger] cur_nulls[x]
                                == m {
                                let x = choose|x: int|
                                    0 <= x < cur_nulls.len() && #[trigger] cur_nulls[x] == m;
                                if x < prev_nulls.len() {
                                    assert(prev_nulls[x] == m);
                                    assert(pre_t.nullifiers.contains_spec(m));
                                } else {
                                    assert(block.txns@[t - 1].txn.nullifiers@[x - prev_nulls.len()]
                                        == m);
                                    assert(seq_has_nul(block.txns@[t - 1].txn.nullifiers@, m));
                                }
                            }
                        }
                        assert forall|u: u64|
                            #[trigger] old(self).records.recs().contains_key(u) implies ((
                        self.records.recs().contains_key(u) <==> !(exists|x: int|
                            0 <= x < cur_nulls.len() && #[trigger] cur_nulls[x] == old(
                            self).records.recs()[u].nullifier_spec())) && (
                        self.records.recs().contains_key(u) ==> self.records.recs()[u] == old(
                        self).records.recs()[u])) by {
                            let mu = old(self).records.recs()[u].nullifier_spec();
                            assert(u < fresh_from);
                            if pre_t.records.recs().contains_key(u) {
                                assert(pre_t.records.recs()[u] == old(self).records.recs()[u]);
                                assert(self.records.recs().contains_key(u) <==> !seq_has_nul(
                                    block.txns@[t - 1].txn.nullifiers@,
                                    mu,
                                ));
                                if seq_has_nul(block.txns@[t - 1].txn.nullifiers@, mu) {
                                    let y = choose|y: int|
                                        0 <= y < block.txns@[t - 1].txn.nullifiers@.len()
                                            && #[trigger] block.txns@[t - 1].txn.nullifiers@[y]
                                            == mu;
                                    assert(cur_nulls[prev_nulls.len() + y] == mu);
                                }
                                if exists|x: int| 0 <= x < cur_nulls.len() && #[trigger] cur_nulls[x]
                                    == mu {
                                    let x = choose|x: int|
                                        0 <= x < cur_nulls.len() && #[trigger] cur_nulls[x] == mu;
                                    if x < prev_nulls.len() {
                                        assert(prev_nulls[x] == mu);
                                        assert(!pre_t.records.recs().contains_key(u));
                                    } else {
                                        assert(block.txns@[t - 1].txn.nullifiers@[x
                                            - prev_nulls.len()] == mu);
                                        assert(seq_has_nul(
                                            block.txns@[t - 1].txn.nullifiers@,
                                            mu,
                                        ));
                                    }
                                }
                            } else {
                                assert(!self.records.recs().contains_key(u)) by {
                                    if self.records.recs().contains_key(u) {
                                        assert((u as int) < fresh_from);
                                        assert(pre_t.records.recs().contains_key(u));
                                    }
                                }
                                let x = choose|x: int|
                                    0 <= x < prev_nulls.len() && #[trigger] prev_nulls[x] == mu;
                                assert(cur_nulls[x] == mu);
                            }
                        }
                    }
                }
                proof {
                    assert forall|n: Nullifier|
                        crate::validator::block_has_nullifier(block, n) implies #[trigger] self.nullifiers.contains_spec(
                        n,
                    ) by {
                        let x = choose|x: int|
                            0 <= x < crate::validator::block_nulls(block).len()
                                && crate::validator::block_nulls(block)[x] == n;
                        assert(crate::validator::block_nulls_upto(block, block.txns@.len() as int)[x]
                            == n);
                    }
                    assert forall|u: u64|
                        #[trigger] old(self).records.recs().contains_key(u) implies ((
                    self.records.recs().contains_key(u)
                        <==> !crate::validator::block_has_nullifier(
                        block,
                        old(self).records.recs()[u].nullifier_spec(),
                    )) && (self.records.recs().contains_key(u) ==> self.records.recs()[u] == old(
                    self).records.recs()[u])) by {
                        let mu = old(self).records.recs()[u].nullifier_spec();
                        assert(crate::validator::block_nulls_upto(block, block.txns@.len() as int)
                            == crate::validator::block_nulls(block));
                        if crate::validator::block_has_nullifier(block, mu) {
                            let x = choose|x: int|
                                0 <= x < crate::validator::block_nulls(block).len()
                                    && crate::validator::block_nulls(block)[x] == mu;
                            assert(crate::validator::block_nulls_upto(
                                block,
                                block.txns@.len() as int,
                            )[x] == mu);
                        }
                    }
                }
                resubmissions
            },
            LedgerEvent::Reject(block, err) => {
                // Our rejected transactions release their holds; if only
                // the nullifier proofs went stale, resubmit once.
                let n_txns = block.txns.len();
                let mut t: usize = 0;
                while t < n_txns
                    invariant
                        session.wf(),
                        old(self).wf(),
                        self.wf(),
                        n_txns == block.txns@.len(),
                        t <= n_txns,
                        self.now == old(self).now + 1,
                        self.validator == old(self).validator,
                        self.validator.prev_commit_time < u64::MAX - RECORD_HOLD_TIME,
                        forall|n: Nullifier|
                            #[trigger] self.nullifiers.contains_spec(n) <==> old(self).nullifiers.contains_spec(n),
                        self.nullifiers.version_spec() == old(self).nullifiers.version_spec(),
                        self.auditable_assets == old(self).auditable_assets,
                        self.defined_assets == old(self).defined_assets,
                        self.proving_keys == old(self).proving_keys,
                        self.auditor_key_pair == old(self).auditor_key_pair,
                        self.freezer_key_pair == old(self).freezer_key_pair,
                        resubmissions@.len() <= t,
                        t == 0 ==> (self.records == old(self).records && self.pending_txns == old(
                        self).pending_txns && self.expiring_txns == old(self).expiring_txns),
                        (n_txns == 1 && t == 1 && block.txns@[0].txn.nullifiers@.len() > 0 && old(
                        self).pending_txns@.contains_key(block.txns@[0].txn.nullifiers@[0])) ==> ({
                            let f = block.txns@[0].txn.nullifiers@[0];
                            let pt0 = old(self).pending_txns@[f];
                            &&& (self.pending_txns@.contains_key(f) <==> resubmissions@.len() == 1)
                            &&& (!(err is BadNullifierProof) ==> resubmissions@.len() == 0)
                            &&& (resubmissions@.len() == 0 ==> forall|i: int|
                                0 <= i < pt0.nullifiers@.len() && self.records.nuls().contains_key(
                                    #[trigger] pt0.nullifiers@[i],
                                ) ==> self.records.recs()[pt0.nullifiers@[i].uid].hold_until is None)
                            &&& (resubmissions@.len() == 1 ==> {
                                &&& resubmissions@[0].txn.txn.nullifiers@ == pt0.nullifiers@
                                &&& resubmissions@[0].txn.txn.kind == block.txns@[0].txn.kind
                                &&& resubmissions@[0].txn.txn.output_commitments@ == block.txns@[0].txn.output_commitments@
                                &&& resubmissions@[0].txn.txn.record_root == block.txns@[0].txn.record_root
                                &&& resubmissions@[0].txn.txn.memo_verif_key == block.txns@[0].txn.memo_verif_key
                                &&& resubmissions@[0].memos@ == pt0.receiver_memos@
                                &&& resubmissions@[0].sig == pt0.signature
                                &&& resubmissions@[0].txn.proofs@.len() == pt0.nullifiers@.len()
                                &&& forall|i: int|
                                    0 <= i < resubmissions@[0].txn.proofs@.len() ==> (
                                    #[trigger] resubmissions@[0].txn.proofs@[i]).version == old(
                                    self).nullifiers.version_spec()
                                &&& self.pending_txns@.contains_key(f)
                                &&& self.pending_txns@[f].nullifiers@ == pt0.nullifiers@
                                &&& self.pending_txns@[f].timeout == old(
                                self).validator.prev_commit_time + RECORD_HOLD_TIME
                                &&& forall|i: int|
                                    0 <= i < pt0.nullifiers@.len() ==> self.records.recs()[(
                                    #[trigger] pt0.nullifiers@[i]).uid].hold_until == Some(
                                        (old(self).validator.prev_commit_time
                                            + RECORD_HOLD_TIME) as u64,
                                    )
                            })
                        }),
                    decreases n_txns - t,
                {
                    let txn = &block.txns[t];
                    let ghost pre_it = *self;
                    let ghost single = n_txns == 1 && block.txns@[0].txn.nullifiers@.len() > 0
                        && old(self).pending_txns@.contains_key(block.txns@[0].txn.nullifiers@[0]);
                    let ghost f0 = if block.txns@[0].txn.nullifiers@.len() > 0 {
                        block.txns@[0].txn.nullifiers@[0]
                    } else {
                        arbitrary()
                    };
                    proof {
                        if single {
                            assert(pre_it.pending_txns@.contains_key(f0));
                            assert(pre_it.pending_txns@[f0] == old(self).pending_txns@[f0]);
                        }
                    }
                    let cleared = self.clear_pending_on_reject(txn);
                    let ghost post_clear = *self;
                    match cleared {
                        Some(pt) => {
                            proof {
                                if single {
                                    assert(pt == old(self).pending_txns@[f0]);
                                    assert(!post_clear.pending_txns@.contains_key(f0));
                                }
                            }
                            let is_bad_proof = match err {
                                ValidationError::BadNullifierProof => true,
                                _ => false,
                            };
                            if is_bad_proof {
                                proof {
                                    assert(pre_it.pending_ok(txn.txn.nullifiers@[0], pt));
                                }
                                match self.try_resubmit(txn, pt) {
                                    Some(bundle) => {
                                        proof {
                                            if single {
                                                assert(self.pending_txns@.contains_key(
                                                    pt.nullifiers@[0],
                                                ));
                                                assert(pt.nullifiers@[0] == f0);
                                            }
                                        }
                                        resubmissions.push(bundle);
                                    },
                                    None => {
                                        proof {
                                            if single {
                                                assert(*self == post_clear);
                                                assert(!self.pending_txns@.contains_key(f0));
                                            }
                                        }
                                    },
                                }
                            } else {
                                proof {
                                    if single {
                                        assert(!self.pending_txns@.contains_key(f0));
                                    }
                                }
                            }
                        },
                        None => {
                            proof {
                                if single {
                                    assert(false);
                                }
                            }
                        },
                    }
                    t += 1;
                }
                resubmissions
            },
        }
    }
}


impl WalletState {
    /// A fresh wallet around a mirrored validator state: no records, no
    /// pending transactions, no registered assets.
    pub fn new(
        rng: rand_chacha::ChaCha20Rng,
        proving_keys: ProverKeySet,
        auditor_key_pair: u64,
        freezer_key_pair: u64,
        validator: ValidatorState,
    ) -> (r: Self)
        requires
            proving_keys.wf(),
            validator.wf(),
        ensures
            r.wf(),
            r.now == 0,
            r.validator == validator,
            r.proving_keys == proving_keys,
            r.auditor_key_pair == auditor_key_pair,
            r.freezer_key_pair == freezer_key_pair,
            forall|u: u64| !(#[trigger] r.records.recs().contains_key(u)),
            forall|n: Nullifier| !(#[trigger] r.pending_txns@.contains_key(n)),
            forall|n: Nullifier| !(#[trigger] r.nullifiers.contains_spec(n)),
            r.nullifiers.version_spec() == 0,
            forall|c: u64| !(#[trigger] r.defined_assets@.contains_key(c)),
            forall|c: u64| !(#[trigger] r.auditable_assets@.contains_key(c)),
    {
        let r = WalletState {
            rng,
            now: 0,
            validator,
            proving_keys,
            records: RecordDatabase::new(),
            auditor_key_pair,
            auditable_assets: Dict::new(),
            freezer_key_pair,
            nullifiers: SetMirror::new(),
            defined_assets: Dict::new(),
            pending_txns: Dict::new(),
            expiring_txns: Dict::new(),
        };
        r
    }

    /// Adopt a record granted at genesis or handed over out of band:
    /// its leaf must be in the mirrored tree and remembered, and no
    /// transaction may be in flight yet.
    pub fn receive_grant(&mut self, ro: RecordOpening, uid: u64)
        requires
            old(self).wf(),
            uid < old(self).validator.record_count,
            old(self).validator.remembered@.contains_key(uid),
            forall|n: Nullifier| !(#[trigger] old(self).pending_txns@.contains_key(n)),
        ensures
            final(self).wf(),
            final(self).records.recs() == old(self).records.recs().insert(
                uid,
                (RecordInfo { ro, uid, hold_until: None }),
            ),
            final(self).now == old(self).now,
            final(self).validator == old(self).validator,
            final(self).nullifiers == old(self).nullifiers,
            final(self).pending_txns == old(self).pending_txns,
            final(self).auditable_assets == old(self).auditable_assets,
            final(self).defined_assets == old(self).defined_assets,
            final(self).proving_keys == old(self).proving_keys,
            final(self).auditor_key_pair == old(self).auditor_key_pair,
            final(self).freezer_key_pair == old(self).freezer_key_pair,
            final(self).rng == old(self).rng,
            final(self).expiring_txns == old(self).expiring_txns,
            forall|n: Nullifier| !(#[trigger] final(self).pending_txns@.contains_key(n)),
    {
        proof {
            assert(self.pending_uids_below(0));
        }
        self.register_record(ro, uid, Ghost(0));
    }
}

/// Every input of a pending transaction whose record is still in the
/// database is on hold until exactly the transaction's timeout, which
/// lies strictly in the validator's future.
pub proof fn lemma_pending_inputs_on_hold(w: WalletState, n: Nullifier, i: int)
    requires
        w.wf(),
        w.pending_txns@.contains_key(n),
        0 <= i < w.pending_txns@[n].nullifiers@.len(),
        w.records.nuls().contains_key(w.pending_txns@[n].nullifiers@[i]),
    ensures
        w.records.recs()[w.pending_txns@[n].nullifiers@[i].uid].hold_until == Some(
            w.pending_txns@[n].timeout,
        ),
        w.pending_txns@[n].timeout > w.validator.prev_commit_time,
        w.records.recs()[w.pending_txns@[n].nullifiers@[i].uid].on_hold_spec(
            w.validator.prev_commit_time,
        ),
{
    assert(w.pending_ok(n, w.pending_txns@[n]));
}

} // verus!
