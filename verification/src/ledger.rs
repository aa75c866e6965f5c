//! A model ledger for driving wallets: it runs the same validator the
//! wallets mirror, turns each submitted transaction into a one-block
//! commit or reject event, and can hold a transaction back to let
//! unrelated traffic age its proofs.

use vstd::prelude::*;
use crate::txn::{ElaboratedBlock, LedgerEvent, ValidationError};
use crate::validator::ValidatorState;
use crate::wallet::TransactionBundle;

verus! {

pub struct MockLedger {
    pub now: u64,
    pub validator: ValidatorState,
    pub hold_next: bool,
    pub held: Option<TransactionBundle>,
}

impl MockLedger {
    pub fn new(validator: ValidatorState) -> (r: Self)
        requires
            validator.wf(),
        ensures
            r.validator == validator,
            r.validator.wf(),
            r.now == 0,
            !r.hold_next,
            r.held is None,
    {
        MockLedger { now: 0, validator, hold_next: false, held: None }
    }

    /// Keep the next submitted transaction back instead of validating
    /// it; unrelated traffic can then age its proofs.
    pub fn hold_next_transaction(&mut self)
        ensures
            final(self).hold_next,
            final(self).validator == old(self).validator,
            final(self).now == old(self).now,
            final(self).held == old(self).held,
    {
        self.hold_next = true;
    }

    /// Put the held-back transaction through validation now.
    pub fn release_held_transaction(&mut self) -> (r: Option<LedgerEvent>)
        requires
            old(self).validator.wf(),
            old(self).validator.prev_commit_time < u64::MAX,
            old(self).now < u64::MAX,
        ensures
            final(self).validator.wf(),
    {
        let held = self.held.take();
        match held {
            Some(bundle) => self.submit(bundle),
            None => None,
        }
    }

    /// Validate one submitted transaction as a block of its own and
    /// return the event every subscriber would see, unless the ledger
    /// was told to hold it back.
    pub fn submit(&mut self, bundle: TransactionBundle) -> (r: Option<LedgerEvent>)
        requires
            old(self).validator.wf(),
            old(self).validator.prev_commit_time < u64::MAX,
            old(self).now < u64::MAX,
        ensures
            final(self).validator.wf(),
            match r {
                None => old(self).hold_next && final(self).held is Some && final(self).validator
                    == old(self).validator && final(self).now == old(self).now,
                Some(ev) => {
                    &&& final(self).now == old(self).now + 1
                    &&& match ev {
                        LedgerEvent::Commit(b, m) => {
                            &&& b.txns@.len() == 1
                            &&& b.txns@[0].txn == bundle.txn.txn
                            &&& old(self).validator.block_valid(&b)
                            &&& m@.len() == 1
                            &&& m@[0]@ == bundle.memos@
                            &&& final(self).validator.prev_commit_time == old(
                                self,
                            ).validator.prev_commit_time + 1
                        },
                        LedgerEvent::Reject(b, _e) => {
                            &&& b.txns@.len() == 1
                            &&& b.txns@[0].txn == bundle.txn.txn
                            &&& final(self).validator == old(self).validator
                            &&& (bundle.sig.key != bundle.txn.txn.memo_verif_key
                                || bundle.sig.memo_count != bundle.memos@.len() || !old(
                                self,
                            ).validator.block_valid(&b))
                        },
                    }
                },
            },
    {
        if self.hold_next {
            self.hold_next = false;
            self.held = Some(bundle);
            return None;
        }
        // The memo signature must verify under the note's key.
        let sig_ok = bundle.sig.key == bundle.txn.txn.memo_verif_key && bundle.sig.memo_count
            == bundle.memos.len();
        let mut txns: Vec<crate::txn::ElaboratedTransaction> = Vec::new();
        txns.push(bundle.txn);
        let block = ElaboratedBlock { txns };
        if !sig_ok {
            self.now = self.now + 1;
            return Some(LedgerEvent::Reject(block, ValidationError::CryptoError));
        }
        let step_to = self.validator.prev_commit_time + 1;
        let vres = self.validator.validate_and_apply(step_to, &block, false);
        self.now = self.now + 1;
        match vres {
            Ok(_uids) => {
                let mut memos: Vec<Vec<crate::types::ReceiverMemo>> = Vec::new();
                memos.push(bundle.memos);
                Some(LedgerEvent::Commit(block, memos))
            },
            Err(e) => Some(LedgerEvent::Reject(block, e)),
        }
    }
}

} // verus!
