//! The wallet's mirror of the validator: a sparse nullifier set with
//! versioned non-membership proofs, and the validator state proper,
//! which re-validates and applies blocks exactly as the validators do.

use vstd::prelude::*;
use crate::dict::{Dict, DictKey};
use crate::txn::{ElaboratedBlock, ElaboratedTransaction, NulProof, ValidationError};
use crate::types::Nullifier;
use crate::RECORD_ROOT_HISTORY_SIZE;

verus! {

/// A sparse authenticated set of spent nullifiers. Membership and
/// non-membership are checkable against one root; the root's version
/// here is the number of nullifiers inserted so far.
pub struct SetMirror {
    pub set: Dict<Nullifier, ()>,
}

impl SetMirror {
    pub open spec fn wf(&self) -> bool {
        self.set.wf()
    }

    pub open spec fn contains_spec(&self, n: Nullifier) -> bool {
        self.set@.contains_key(n)
    }

    pub open spec fn version_spec(&self) -> int {
        self.set.entries_seq().len() as int
    }

    pub fn new() -> (r: Self)
        ensures
            r.wf(),
            forall|n: Nullifier| !(#[trigger] r.contains_spec(n)),
            r.version_spec() == 0,
    {
        SetMirror { set: Dict::new() }
    }

    pub fn version(&self) -> (r: u64)
        requires
            self.version_spec() <= u64::MAX,
        ensures
            r == self.version_spec(),
    {
        self.set.len() as u64
    }

    /// Membership, with a proof of the answer bound to the current
    /// version of the set.
    pub fn contains(&self, n: &Nullifier) -> (r: (bool, NulProof))
        requires
            self.wf(),
            self.version_spec() <= u64::MAX,
        ensures
            r.0 == self.contains_spec(*n),
            r.1.version == self.version_spec(),
    {
        let member = self.set.contains_key(n);
        (member, NulProof { version: self.version() })
    }

    pub fn insert(&mut self, n: Nullifier)
        requires
            old(self).wf(),
        ensures
            final(self).wf(),
            forall|m: Nullifier|
                #[trigger] final(self).contains_spec(m) <==> (old(self).contains_spec(m) || m
                    == n),
            old(self).contains_spec(n) ==> final(self).version_spec() == old(self).version_spec(),
            !old(self).contains_spec(n) ==> final(self).version_spec() == old(self).version_spec()
                + 1,
    {
        self.set.insert(n, ());
    }
}

/// Sum of the output counts of the first `i` transactions.
pub open spec fn block_outputs_upto(b: &ElaboratedBlock, i: int) -> int
    decreases i,
{
    if i <= 0 {
        0
    } else {
        block_outputs_upto(b, i - 1) + b.txns@[i - 1].txn.output_commitments@.len()
    }
}

pub open spec fn block_total_outputs(b: &ElaboratedBlock) -> int {
    block_outputs_upto(b, b.txns@.len() as int)
}

/// All input nullifiers of the first `i` transactions, in order.
pub open spec fn block_nulls_upto(b: &ElaboratedBlock, i: int) -> Seq<Nullifier>
    decreases i,
{
    if i <= 0 {
        Seq::empty()
    } else {
        block_nulls_upto(b, i - 1) + b.txns@[i - 1].txn.nullifiers@
    }
}

pub open spec fn block_nulls(b: &ElaboratedBlock) -> Seq<Nullifier> {
    block_nulls_upto(b, b.txns@.len() as int)
}

pub open spec fn block_has_nullifier(b: &ElaboratedBlock, n: Nullifier) -> bool {
    exists|i: int| 0 <= i < block_nulls(b).len() && block_nulls(b)[i] == n
}


/// Output counts accumulate monotonically across a block.
pub proof fn lemma_outputs_monotone(b: &ElaboratedBlock, i: int, j: int)
    requires
        0 <= i <= j,
    ensures
        block_outputs_upto(b, i) <= block_outputs_upto(b, j),
    decreases j,
{
    if i < j {
        lemma_outputs_monotone(b, i, j - 1);
    }
}

/// One transaction's outputs fit inside the block total.
pub proof fn lemma_block_outputs_bound(b: &ElaboratedBlock, i: int)
    requires
        0 <= i < b.txns@.len(),
    ensures
        block_outputs_upto(b, i) + b.txns@[i].txn.output_commitments@.len()
            <= block_total_outputs(b),
{
    assert(block_outputs_upto(b, i + 1) == block_outputs_upto(b, i)
        + b.txns@[i].txn.output_commitments@.len());
    lemma_outputs_monotone(b, i + 1, b.txns@.len() as int);
}

/// The full validator state the wallet mirrors: validator time, the
/// record tree (its leaf count doubles as the root, the tree being
/// append-only), the ring of recent roots, the spent-nullifier set,
/// and which leaves this mirror remembers.
pub struct ValidatorState {
    pub prev_commit_time: u64,
    pub record_count: u64,
    pub record_root: u64,
    pub past_record_roots: Vec<u64>,
    pub nullifiers: SetMirror,
    pub remembered: Dict<u64, ()>,
}

impl ValidatorState {
    pub open spec fn wf(&self) -> bool {
        &&& self.nullifiers.wf()
        &&& self.remembered.wf()
        &&& self.past_record_roots@.len() <= RECORD_ROOT_HISTORY_SIZE
        &&& self.nullifiers.version_spec() <= u64::MAX
    }

    pub open spec fn root_in_history(&self, root: u64) -> bool {
        root == self.record_root || exists|i: int|
            0 <= i < self.past_record_roots@.len() && self.past_record_roots@[i] == root
    }

    pub fn has_root(&self, root: u64) -> (r: bool)
        ensures
            r == self.root_in_history(root),
    {
        if root == self.record_root {
            return true;
        }
        let n = self.past_record_roots.len();
        for i in 0..n
            invariant
                n == self.past_record_roots@.len(),
                forall|j: int| 0 <= j < i ==> self.past_record_roots@[j] != root,
        {
            if self.past_record_roots[i] == root {
                return true;
            }
        }
        false
    }

    /// One transaction's checks against this state: proofs cover every
    /// nullifier, the bound record root is within the history window,
    /// and every nullifier proof is current and proves non-membership.
    pub open spec fn txn_ok(&self, t: ElaboratedTransaction) -> bool {
        &&& t.proofs@.len() == t.txn.nullifiers@.len()
        &&& self.root_in_history(t.txn.record_root)
        &&& forall|j: int|
            0 <= j < t.txn.nullifiers@.len() ==> (#[trigger] t.proofs@[j]).version
                == self.nullifiers.version_spec() && !self.nullifiers.contains_spec(
                t.txn.nullifiers@[j],
            )
    }

    /// A whole block's checks: each transaction passes, no nullifier
    /// appears twice, and the record tree can take the outputs.
    pub open spec fn block_valid(&self, b: &ElaboratedBlock) -> bool {
        &&& forall|i: int| 0 <= i < b.txns@.len() ==> self.txn_ok(#[trigger] b.txns@[i])
        &&& forall|i: int, j: int|
            0 <= i < j < block_nulls(b).len() ==> #[trigger] block_nulls(b)[i] != #[trigger] block_nulls(
                b,
            )[j]
        &&& self.record_count + block_total_outputs(b) <= u64::MAX
    }

    /// Re-validate a block and, if it passes, apply it: advance the
    /// clock to `now`, append the outputs (returning their uids, all
    /// fresh and consecutive), rotate the root history, and publish the
    /// nullifiers. A failing block leaves the state untouched.
    pub fn validate_and_apply(&mut self, now: u64, block: &ElaboratedBlock, remember: bool) -> (r:
        Result<Vec<u64>, ValidationError>)
        requires
            old(self).wf(),
        ensures
            final(self).wf(),
            r is Ok <==> old(self).block_valid(block),
            match r {
                Ok(uids) => {
                    &&& uids@.len() == block_total_outputs(block)
                    &&& forall|j: int|
                        0 <= j < uids@.len() ==> #[trigger] uids@[j] == old(self).record_count + j
                    &&& final(self).prev_commit_time == now
                    &&& final(self).record_count == old(self).record_count + block_total_outputs(
                        block,
                    )
                    &&& final(self).record_root == final(self).record_count
                    &&& final(self).root_in_history(old(self).record_root)
                    &&& forall|n: Nullifier|
                        #[trigger] final(self).nullifiers.contains_spec(n) <==> (old(self).nullifiers.contains_spec(n) || block_has_nullifier(block, n))
                    &&& forall|u: u64|
                        #[trigger] final(self).remembered@.contains_key(u) <==> (old(self).remembered@.contains_key(u) || (remember && old(self).record_count <= u
                            < final(self).record_count))
                    &&& final(self).record_count >= old(self).record_count
                },
                Err(_) => *final(self) == *old(self),
            },
    {
        // Validation pass: nothing is mutated until the block passes.
        let n_txns = block.txns.len();
        let version = self.nullifiers.version();
        let mut total: u128 = 0;
        let mut i: usize = 0;
        while i < n_txns
            invariant
                old(self).wf(),
                *self == *old(self),
                version == self.nullifiers.version_spec(),
                n_txns == block.txns@.len(),
                i <= n_txns,
                forall|t: int| 0 <= t < i ==> self.txn_ok(#[trigger] block.txns@[t]),
                total == block_outputs_upto(block, i as int),
                total <= i * (u64::MAX as int),
            decreases n_txns - i,
        {
            let t = &block.txns[i];
            if t.proofs.len() != t.txn.nullifiers.len() {
                proof {
                    assert(!old(self).txn_ok(block.txns@[i as int]));
                }
                return Err(ValidationError::BadNullifierProof);
            }
            if !self.has_root(t.txn.record_root) {
                proof {
                    assert(!old(self).txn_ok(block.txns@[i as int]));
                }
                return Err(ValidationError::BadMerkleRoot);
            }
            let n_inputs = t.txn.nullifiers.len();
            let mut j: usize = 0;
            while j < n_inputs
                invariant
                    old(self).wf(),
                    *self == *old(self),
                    version == self.nullifiers.version_spec(),
                    n_txns == block.txns@.len(),
                    i < n_txns,
                    *t == block.txns@[i as int],
                    n_inputs == t.txn.nullifiers@.len(),
                    j <= n_inputs,
                    t.proofs@.len() == t.txn.nullifiers@.len(),
                    forall|m: int|
                        0 <= m < j ==> (#[trigger] t.proofs@[m]).version
                            == self.nullifiers.version_spec(),
                    forall|m: int|
                        0 <= m < j ==> !self.nullifiers.contains_spec(
                            #[trigger] t.txn.nullifiers@[m],
                        ),
                decreases n_inputs - j,
            {
                if t.proofs[j].version != version {
                    proof {
                        assert(t.proofs@[j as int].version != old(self).nullifiers.version_spec());
                        assert(!old(self).txn_ok(block.txns@[i as int]));
                    }
                    return Err(ValidationError::BadNullifierProof);
                }
                let (member, _) = self.nullifiers.contains(&t.txn.nullifiers[j]);
                if member {
                    proof {
                        assert(!old(self).txn_ok(block.txns@[i as int]));
                    }
                    return Err(ValidationError::NullifierAlreadyExists);
                }
                proof {
                    assert(t.proofs@[j as int].version == self.nullifiers.version_spec());
                    assert(!self.nullifiers.contains_spec(t.txn.nullifiers@[j as int]));
                }
                j += 1;
            }
            proof {
                assert forall|m: int| 0 <= m < t.txn.nullifiers@.len() implies (
                #[trigger] t.proofs@[m]).version == self.nullifiers.version_spec()
                    && !self.nullifiers.contains_spec(t.txn.nullifiers@[m]) by {
                    assert(!self.nullifiers.contains_spec(t.txn.nullifiers@[m]));
                }
                assert(self.txn_ok(block.txns@[i as int]));
            }
            total = total + t.txn.output_commitments.len() as u128;
            i += 1;
        }
        proof {
            assert(total == block_total_outputs(block));
        }
        if total > (u64::MAX - self.record_count) as u128 {
            proof {
                assert(!old(self).block_valid(block));
            }
            return Err(ValidationError::LedgerFull);
        }

        // No nullifier may appear twice across the block.
        let mut all: Vec<Nullifier> = Vec::new();
        let mut i2: usize = 0;
        while i2 < n_txns
            invariant
                *self == *old(self),
                n_txns == block.txns@.len(),
                i2 <= n_txns,
                all@ == block_nulls_upto(block, i2 as int),
            decreases n_txns - i2,
        {
            let ghost pre = all@;
            let t = &block.txns[i2];
            let n_inputs = t.txn.nullifiers.len();
            let mut j: usize = 0;
            while j < n_inputs
                invariant
                    n_txns == block.txns@.len(),
                    i2 < n_txns,
                    n_inputs == t.txn.nullifiers@.len(),
                    j <= n_inputs,
                    *t == block.txns@[i2 as int],
                    all@ == pre + t.txn.nullifiers@.subrange(0, j as int),
                decreases n_inputs - j,
            {
                all.push(t.txn.nullifiers[j]);
                proof {
                    assert(t.txn.nullifiers@.subrange(0, j + 1) =~= t.txn.nullifiers@.subrange(
                        0,
                        j as int,
                    ).push(t.txn.nullifiers@[j as int]));
                    assert(all@ =~= pre + t.txn.nullifiers@.subrange(0, j + 1));
                }
                j += 1;
            }
            proof {
                assert(t.txn.nullifiers@.subrange(0, n_inputs as int) =~= t.txn.nullifiers@);
                assert(all@ =~= block_nulls_upto(block, i2 + 1));
            }
            i2 += 1;
        }
        let n_all = all.len();
        let mut a: usize = 0;
        while a < n_all
            invariant
                old(self).wf(),
                *self == *old(self),
                n_all == all@.len(),
                all@ == block_nulls(block),
                a <= n_all,
                forall|x: int, y: int| 0 <= x < y < n_all && x < a ==> all@[x] != all@[y],
            decreases n_all - a,
        {
            let mut b2: usize = a + 1;
            while b2 < n_all
                invariant
                    old(self).wf(),
                    *self == *old(self),
                    n_all == all@.len(),
                    all@ == block_nulls(block),
                    a < b2 <= n_all || (a + 1 == b2 && b2 > n_all),
                    a < n_all,
                    forall|y: int| a < y < b2 ==> all@[a as int] != all@[y],
                decreases n_all - b2,
            {
                if all[a].key_eq(&all[b2]) {
                    proof {
                        assert(block_nulls(block)[a as int] == block_nulls(block)[b2 as int]);
                        assert(!old(self).block_valid(block));
                    }
                    return Err(ValidationError::NullifierAlreadyExists);
                }
                b2 += 1;
            }
            a += 1;
        }
        proof {
            assert(old(self).block_valid(block));
        }

        // Apply.
        let mut uids: Vec<u64> = Vec::new();
        let mut i3: usize = 0;
        while i3 < n_txns
            invariant
                old(self).wf(),
                n_txns == block.txns@.len(),
                i3 <= n_txns,
                old(self).record_count + block_total_outputs(block) <= u64::MAX,
                self.record_count == old(self).record_count + block_outputs_upto(block, i3 as int),
                uids@.len() == block_outputs_upto(block, i3 as int),
                forall|m: int|
                    0 <= m < uids@.len() ==> #[trigger] uids@[m] == old(self).record_count + m,
                self.remembered.wf(),
                forall|u: u64|
                    #[trigger] self.remembered@.contains_key(u) <==> (old(self).remembered@.contains_key(u) || (remember && old(self).record_count <= u
                        < self.record_count)),
                self.nullifiers.wf(),
                self.nullifiers.version_spec() <= u64::MAX,
                forall|n: Nullifier|
                    #[trigger] self.nullifiers.contains_spec(n) <==> (old(self).nullifiers.contains_spec(n) || exists|x: int|
                        0 <= x < block_nulls_upto(block, i3 as int).len() && #[trigger] block_nulls_upto(
                            block,
                            i3 as int,
                        )[x] == n),
                self.prev_commit_time == old(self).prev_commit_time,
                self.record_root == old(self).record_root,
                self.past_record_roots == old(self).past_record_roots,
            decreases n_txns - i3,
        {
            proof {
                lemma_block_outputs_bound(block, i3 as int);
            }
            let t = &block.txns[i3];
            self.apply_txn(t, &mut uids, remember);
            i3 += 1;
            proof {
                let prev = block_nulls_upto(block, i3 - 1);
                let cur = block_nulls_upto(block, i3 as int);
                assert(cur == prev + block.txns@[i3 - 1].txn.nullifiers@);
                assert forall|n: Nullifier|
                    #[trigger] self.nullifiers.contains_spec(n) <==> (old(self).nullifiers.contains_spec(n) || exists|x: int|
                        0 <= x < cur.len() && #[trigger] cur[x] == n) by {
                    if self.nullifiers.contains_spec(n) && !old(self).nullifiers.contains_spec(n) {
                        if exists|x: int| 0 <= x < prev.len() && #[trigger] prev[x] == n {
                            let x = choose|x: int| 0 <= x < prev.len() && #[trigger] prev[x] == n;
                            assert(cur[x] == n);
                        } else {
                            let y = choose|y: int|
                                0 <= y < block.txns@[i3 - 1].txn.nullifiers@.len()
                                    && #[trigger] block.txns@[i3 - 1].txn.nullifiers@[y] == n;
                            assert(cur[prev.len() + y] == n);
                        }
                    }
                    if exists|x: int| 0 <= x < cur.len() && #[trigger] cur[x] == n {
                        let x = choose|x: int| 0 <= x < cur.len() && #[trigger] cur[x] == n;
                        if x < prev.len() {
                            assert(prev[x] == n);
                        } else {
                            assert(block.txns@[i3 - 1].txn.nullifiers@[x - prev.len()] == n);
                        }
                    }
                }
            }
        }

        // Rotate the root history and publish the new root.
        self.past_record_roots.insert(0, self.record_root);
        if self.past_record_roots.len() > RECORD_ROOT_HISTORY_SIZE as usize {
            self.past_record_roots.pop();
        }
        self.record_root = self.record_count;
        self.prev_commit_time = now;
        proof {
            assert(self.past_record_roots@[0] == old(self).record_root);
            assert(self.root_in_history(old(self).record_root));
        }
        Ok(uids)
    }

    /// Append one transaction's outputs to the record tree (collecting
    /// their uids) and publish its nullifiers.
    fn apply_txn(&mut self, t: &ElaboratedTransaction, uids: &mut Vec<u64>, remember: bool)
        requires
            old(self).remembered.wf(),
            old(self).nullifiers.wf(),
            old(self).nullifiers.version_spec() <= u64::MAX,
            old(self).record_count + t.txn.output_commitments@.len() <= u64::MAX,
        ensures
            final(self).remembered.wf(),
            final(self).nullifiers.wf(),
            final(self).nullifiers.version_spec() <= u64::MAX,
            final(self).record_count == old(self).record_count + t.txn.output_commitments@.len(),
            final(uids)@.len() == old(uids)@.len() + t.txn.output_commitments@.len(),
            forall|m: int|
                0 <= m < old(uids)@.len() ==> #[trigger] final(uids)@[m] == old(uids)@[m],
            forall|m: int|
                old(uids)@.len() <= m < final(uids)@.len() ==> #[trigger] final(uids)@[m] == old(self).record_count + (m - old(uids)@.len()),
            forall|u: u64|
                #[trigger] final(self).remembered@.contains_key(u) <==> (old(self).remembered@.contains_key(u) || (remember && old(self).record_count <= u < final(self).record_count)),
            forall|n: Nullifier|
                #[trigger] final(self).nullifiers.contains_spec(n) <==> (old(self).nullifiers.contains_spec(n) || exists|y: int|
                    0 <= y < t.txn.nullifiers@.len() && #[trigger] t.txn.nullifiers@[y] == n),
            final(self).prev_commit_time == old(self).prev_commit_time,
            final(self).record_root == old(self).record_root,
            final(self).past_record_roots == old(self).past_record_roots,
    {
        let n_outputs = t.txn.output_commitments.len();
        let ghost base = self.record_count;
        let ghost pre_uids = uids@;
        let mut j: usize = 0;
        while j < n_outputs
            invariant
                n_outputs == t.txn.output_commitments@.len(),
                j <= n_outputs,
                base == old(self).record_count,
                base + n_outputs <= u64::MAX,
                self.record_count == base + j,
                uids@.len() == pre_uids.len() + j,
                pre_uids == old(uids)@,
                forall|m: int| 0 <= m < pre_uids.len() ==> #[trigger] uids@[m] == pre_uids[m],
                forall|m: int|
                    pre_uids.len() <= m < uids@.len() ==> #[trigger] uids@[m] == base + (m
                        - pre_uids.len()),
                self.remembered.wf(),
                forall|u: u64|
                    #[trigger] self.remembered@.contains_key(u) <==> (old(self).remembered@.contains_key(u) || (remember && base <= u < self.record_count)),
                self.nullifiers == old(self).nullifiers,
                self.prev_commit_time == old(self).prev_commit_time,
                self.record_root == old(self).record_root,
                self.past_record_roots == old(self).past_record_roots,
            decreases n_outputs - j,
        {
            uids.push(self.record_count);
            if remember {
                self.remembered.insert(self.record_count, ());
            }
            self.record_count = self.record_count + 1;
            j += 1;
        }
        let n_inputs = t.txn.nullifiers.len();
        let mut j2: usize = 0;
        while j2 < n_inputs
            invariant
                n_inputs == t.txn.nullifiers@.len(),
                j2 <= n_inputs,
                self.nullifiers.wf(),
                forall|n: Nullifier|
                    #[trigger] self.nullifiers.contains_spec(n) <==> (old(self).nullifiers.contains_spec(n) || exists|y: int|
                        0 <= y < j2 && #[trigger] t.txn.nullifiers@[y] == n),
                self.record_count == old(self).record_count + t.txn.output_commitments@.len(),
                uids@.len() == old(uids)@.len() + t.txn.output_commitments@.len(),
                forall|m: int|
                    0 <= m < old(uids)@.len() ==> #[trigger] uids@[m] == old(uids)@[m],
                forall|m: int|
                    old(uids)@.len() <= m < uids@.len() ==> #[trigger] uids@[m] == old(self).record_count + (m - old(uids)@.len()),
                self.remembered.wf(),
                forall|u: u64|
                    #[trigger] self.remembered@.contains_key(u) <==> (old(self).remembered@.contains_key(u) || (remember && old(self).record_count <= u
                        < self.record_count)),
                self.prev_commit_time == old(self).prev_commit_time,
                self.record_root == old(self).record_root,
                self.past_record_roots == old(self).past_record_roots,
            decreases n_inputs - j2,
        {
            self.nullifiers.insert(t.txn.nullifiers[j2]);
            j2 += 1;
        }
        let version_now: usize = self.nullifiers.set.len();
        proof {
            assert(self.nullifiers.version_spec() == version_now as int);
        }
    }


    /// Forget a leaf this mirror no longer needs.
    pub fn forget(&mut self, uid: u64)
        requires
            old(self).remembered.wf(),
        ensures
            final(self).remembered.wf(),
            final(self).remembered@ == old(self).remembered@.remove(uid),
            final(self).record_count == old(self).record_count,
            final(self).record_root == old(self).record_root,
            final(self).past_record_roots == old(self).past_record_roots,
            final(self).nullifiers == old(self).nullifiers,
            final(self).prev_commit_time == old(self).prev_commit_time,
    {
        self.remembered.remove(&uid);
    }

    /// A membership witness for a remembered leaf, bound to the
    /// current record root.
    pub fn member_witness(&self, uid: u64) -> (r: Option<u64>)
        requires
            self.remembered.wf(),
        ensures
            match r {
                Some(root) => self.remembered@.contains_key(uid) && root == self.record_root,
                None => !self.remembered@.contains_key(uid),
            },
    {
        if self.remembered.contains_key(&uid) {
            Some(self.record_root)
        } else {
            None
        }
    }
}

} // verus!
