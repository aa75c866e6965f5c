//! The encrypted persistent store, modelled at the level of its commit
//! discipline: four encrypted streams and one plaintext metadata
//! stream, each either a snapshot log (latest value wins) or an
//! append-only log, all sharing one atomic commit boundary. A mutation
//! stages a value and marks its stream dirty; `commit` makes the staged
//! values durable at once; `revert` discards everything staged. The
//! byte-level encryption and the disk substrate sit outside this model;
//! what is proved is that load returns exactly what was committed.

use vstd::prelude::*;
use crate::dict::Dict;
use crate::key_set::ProverKeySet;
use crate::records::RecordDatabase;
use crate::types::AssetDefinition;
use crate::validator::{SetMirror, ValidatorState};
use crate::wallet::{DefinedAsset, PendingTransaction};

verus! {

/// A snapshot log: at most one current value, plus at most one staged.
pub struct SnapshotLog<T> {
    pub committed: Option<T>,
    pub pending: Option<T>,
}

impl<T> SnapshotLog<T> {
    pub fn new() -> (r: Self)
        ensures
            r.committed is None,
            r.pending is None,
    {
        SnapshotLog { committed: None, pending: None }
    }

    /// Stage a new value; it becomes durable only on commit.
    pub fn store_resource(&mut self, v: T)
        ensures
            final(self).committed == old(self).committed,
            final(self).pending == Some(v),
    {
        self.pending = Some(v);
    }

    /// Make the staged value current, if there is one.
    pub fn commit_version(&mut self)
        ensures
            final(self).pending is None,
            old(self).pending is Some ==> final(self).committed == old(self).pending,
            old(self).pending is None ==> final(self).committed == old(self).committed,
    {
        let staged = self.pending.take();
        match staged {
            Some(v) => {
                self.committed = Some(v);
            },
            None => {},
        }
    }

    /// Discard anything staged.
    pub fn revert_version(&mut self)
        ensures
            final(self).pending is None,
            final(self).committed == old(self).committed,
    {
        self.pending = None;
    }
}

/// An append-only log: committed entries plus staged entries.
pub struct AppendLog<T> {
    pub committed: Vec<T>,
    pub pending: Vec<T>,
}

impl<T> AppendLog<T> {
    pub fn new() -> (r: Self)
        ensures
            r.committed@.len() == 0,
            r.pending@.len() == 0,
    {
        AppendLog { committed: Vec::new(), pending: Vec::new() }
    }

    pub fn store_resource(&mut self, v: T)
        ensures
            final(self).committed == old(self).committed,
            final(self).pending@ == old(self).pending@.push(v),
    {
        self.pending.push(v);
    }

    pub fn commit_version(&mut self)
        ensures
            final(self).pending@.len() == 0,
            final(self).committed@ == old(self).committed@ + old(self).pending@,
    {
        let ghost pre_committed = self.committed@;
        let ghost pre_pending = self.pending@;
        while self.pending.len() > 0
            invariant
                self.committed@ + self.pending@ =~= pre_committed + pre_pending,
            decreases self.pending@.len(),
        {
            let ghost before_p = self.pending@;
            let ghost before_c = self.committed@;
            let v = self.pending.remove(0);
            self.committed.push(v);
            proof {
                assert(self.pending@ =~= before_p.subrange(1, before_p.len() as int));
                assert(self.committed@ =~= before_c.push(before_p[0]));
                assert(self.committed@ + self.pending@ =~= before_c + before_p);
            }
        }
        proof {
            assert(self.pending@.len() == 0);
            assert(self.committed@ =~= self.committed@ + self.pending@);
            assert(self.committed@ =~= pre_committed + pre_pending);
        }
    }

    pub fn revert_version(&mut self)
        ensures
            final(self).pending@.len() == 0,
            final(self).committed == old(self).committed,
    {
        self.pending = Vec::new();
    }
}

/// The static part of a wallet state: the proving keys and the three
/// long-lived key pairs.
pub struct WalletStaticState {
    pub proving_keys: ProverKeySet,
    pub user_key: u64,
    pub auditor_key: u64,
    pub freezer_key: u64,
}

/// The dynamic part of a wallet state, snapshotted as a whole.
pub struct WalletSnapshot {
    pub now: u64,
    pub validator: ValidatorState,
    pub records: RecordDatabase,
    pub nullifiers: SetMirror,
    pub pending_txns: Dict<crate::types::Nullifier, PendingTransaction>,
    pub expiring_txns: Dict<u64, Vec<crate::types::Nullifier>>,
}

/// The wallet's atomically durable storage: five streams behind one
/// commit boundary.
pub struct AtomicWalletStorage {
    pub meta: Vec<u8>,
    pub persisted_meta: SnapshotLog<Vec<u8>>,
    pub meta_dirty: bool,
    pub static_data: SnapshotLog<WalletStaticState>,
    pub static_dirty: bool,
    pub dynamic_state: SnapshotLog<WalletSnapshot>,
    pub dynamic_state_dirty: bool,
    pub auditable_assets: AppendLog<AssetDefinition>,
    pub auditable_assets_dirty: bool,
    pub defined_assets: AppendLog<DefinedAsset>,
    pub defined_assets_dirty: bool,
}


/// The auditable registry an append log replays into: each entry is
/// keyed by its code, later entries winning.
pub open spec fn replay_auditable(s: Seq<AssetDefinition>, n: int) -> Map<u64, AssetDefinition>
    decreases n,
{
    if n <= 0 {
        Map::empty()
    } else {
        replay_auditable(s, n - 1).insert(s[n - 1].code, s[n - 1])
    }
}

/// The defined-asset registry an append log replays into.
pub open spec fn replay_defined(s: Seq<DefinedAsset>, n: int) -> Map<u64, DefinedAsset>
    decreases n,
{
    if n <= 0 {
        Map::empty()
    } else {
        replay_defined(s, n - 1).insert(s[n - 1].definition.code, s[n - 1])
    }
}

/// The staging of a dynamic snapshot: only the dynamic stream gains a
/// staged value and its dirty mark.
pub open spec fn store_snapshot_rel(
    pre: AtomicWalletStorage,
    post: AtomicWalletStorage,
    w: WalletSnapshot,
) -> bool {
    &&& post.dynamic_state.committed == pre.dynamic_state.committed
    &&& post.dynamic_state.pending == Some(w)
    &&& post.dynamic_state_dirty
    &&& post.persisted_meta == pre.persisted_meta
    &&& post.meta_dirty == pre.meta_dirty
    &&& post.static_data == pre.static_data
    &&& post.static_dirty == pre.static_dirty
    &&& post.auditable_assets.committed@ == pre.auditable_assets.committed@
    &&& post.auditable_assets.pending@ == pre.auditable_assets.pending@
    &&& post.auditable_assets_dirty == pre.auditable_assets_dirty
    &&& post.defined_assets.committed == pre.defined_assets.committed
    &&& post.defined_assets.pending == pre.defined_assets.pending
    &&& post.defined_assets_dirty == pre.defined_assets_dirty
    &&& post.meta == pre.meta
}

/// The atomic commit: each dirty snapshot stream adopts its staged
/// value, the append logs adopt their staged entries, nothing staged
/// survives, and every dirty mark clears.
pub open spec fn commit_rel(pre: AtomicWalletStorage, post: AtomicWalletStorage) -> bool {
    &&& post.persisted_meta.committed == (if pre.meta_dirty && pre.persisted_meta.pending is Some {
        pre.persisted_meta.pending
    } else {
        pre.persisted_meta.committed
    })
    &&& post.persisted_meta.pending is None
    &&& post.static_data.committed == (if pre.static_dirty && pre.static_data.pending is Some {
        pre.static_data.pending
    } else {
        pre.static_data.committed
    })
    &&& post.static_data.pending is None
    &&& post.dynamic_state.committed == (if pre.dynamic_state_dirty
        && pre.dynamic_state.pending is Some {
        pre.dynamic_state.pending
    } else {
        pre.dynamic_state.committed
    })
    &&& post.dynamic_state.pending is None
    &&& post.auditable_assets.committed@ == pre.auditable_assets.committed@
        + pre.auditable_assets.pending@
    &&& post.auditable_assets.pending@.len() == 0
    &&& post.defined_assets.committed@ == pre.defined_assets.committed@
        + pre.defined_assets.pending@
    &&& post.defined_assets.pending@.len() == 0
    &&& !post.meta_dirty && !post.static_dirty && !post.dynamic_state_dirty
        && !post.auditable_assets_dirty && !post.defined_assets_dirty
    &&& post.meta == pre.meta
}

/// The revert: everything staged is discarded, everything committed
/// stays.
pub open spec fn revert_rel(pre: AtomicWalletStorage, post: AtomicWalletStorage) -> bool {
    &&& post.persisted_meta.committed == pre.persisted_meta.committed
    &&& post.persisted_meta.pending is None
    &&& post.static_data.committed == pre.static_data.committed
    &&& post.static_data.pending is None
    &&& post.dynamic_state.committed == pre.dynamic_state.committed
    &&& post.dynamic_state.pending is None
    &&& post.auditable_assets.committed@ == pre.auditable_assets.committed@
    &&& post.auditable_assets.pending@.len() == 0
    &&& post.defined_assets.committed@ == pre.defined_assets.committed@
    &&& post.defined_assets.pending@.len() == 0
    &&& post.meta_dirty == pre.meta_dirty
    &&& post.static_dirty == pre.static_dirty
    &&& post.dynamic_state_dirty == pre.dynamic_state_dirty
    &&& post.auditable_assets_dirty == pre.auditable_assets_dirty
    &&& post.defined_assets_dirty == pre.defined_assets_dirty
    &&& post.meta == pre.meta
}

impl AtomicWalletStorage {
    /// A fresh store for a loader that supplied `meta`.
    pub fn new(meta: Vec<u8>) -> (r: Self)
        ensures
            r.persisted_meta.committed is None,
            r.persisted_meta.pending is None,
            r.static_data.committed is None,
            r.static_data.pending is None,
            r.dynamic_state.committed is None,
            r.dynamic_state.pending is None,
            r.auditable_assets.committed@.len() == 0,
            r.auditable_assets.pending@.len() == 0,
            r.defined_assets.committed@.len() == 0,
            r.defined_assets.pending@.len() == 0,
            !r.meta_dirty && !r.static_dirty && !r.dynamic_state_dirty
                && !r.auditable_assets_dirty && !r.defined_assets_dirty,
            r.meta == meta,
    {
        AtomicWalletStorage {
            meta,
            persisted_meta: SnapshotLog::new(),
            meta_dirty: false,
            static_data: SnapshotLog::new(),
            static_dirty: false,
            dynamic_state: SnapshotLog::new(),
            dynamic_state_dirty: false,
            auditable_assets: AppendLog::new(),
            auditable_assets_dirty: false,
            defined_assets: AppendLog::new(),
            defined_assets_dirty: false,
        }
    }

    /// Has the wallet ever been committed to this store?
    pub fn wallet_exists(&self) -> (r: bool)
        ensures
            r == (self.persisted_meta.committed is Some),
    {
        self.persisted_meta.is_committed()
    }

    /// Stage the metadata, the static state and the first dynamic
    /// snapshot, and commit them together.
    pub fn create(&mut self, static_state: WalletStaticState, w: WalletSnapshot)
        ensures
            final(self).persisted_meta.committed is Some,
            final(self).persisted_meta.committed.unwrap()@ == old(self).meta@,
            final(self).static_data.committed == Some(static_state),
            final(self).dynamic_state.committed == Some(w),
            final(self).meta == old(self).meta,
            !final(self).meta_dirty && !final(self).static_dirty && !final(self).dynamic_state_dirty,
            final(self).auditable_assets.committed@ == old(self).auditable_assets.committed@
                + old(self).auditable_assets.pending@,
            final(self).auditable_assets.pending@.len() == 0,
            final(self).defined_assets.committed@ == old(self).defined_assets.committed@
                + old(self).defined_assets.pending@,
            final(self).defined_assets.pending@.len() == 0,
            !final(self).auditable_assets_dirty && !final(self).defined_assets_dirty,
    {
        let meta_copy = crate::types::copy_vec(&self.meta);
        self.persisted_meta.store_resource(meta_copy);
        self.meta_dirty = true;
        self.static_data.store_resource(static_state);
        self.static_dirty = true;
        self.dynamic_state.store_resource(w);
        self.dynamic_state_dirty = true;
        self.commit();
    }

    /// Stage a dynamic snapshot.
    pub fn store_snapshot(&mut self, w: WalletSnapshot)
        ensures
            store_snapshot_rel(*old(self), *final(self), w),
    {
        self.dynamic_state.store_resource(w);
        self.dynamic_state_dirty = true;
    }

    /// Stage one more auditable asset on the append log.
    pub fn store_auditable_asset(&mut self, asset: AssetDefinition)
        ensures
            final(self).auditable_assets.committed == old(self).auditable_assets.committed,
            final(self).auditable_assets.pending@ == old(self).auditable_assets.pending@.push(
                asset,
            ),
            final(self).auditable_assets_dirty,
            final(self).dynamic_state == old(self).dynamic_state,
            final(self).defined_assets == old(self).defined_assets,
            final(self).static_data == old(self).static_data,
            final(self).persisted_meta == old(self).persisted_meta,
            final(self).meta == old(self).meta,
            final(self).meta_dirty == old(self).meta_dirty,
            final(self).static_dirty == old(self).static_dirty,
            final(self).dynamic_state_dirty == old(self).dynamic_state_dirty,
            final(self).defined_assets_dirty == old(self).defined_assets_dirty,
    {
        self.auditable_assets.store_resource(asset);
        self.auditable_assets_dirty = true;
    }

    /// Stage one more defined asset on the append log.
    pub fn store_defined_asset(&mut self, asset: DefinedAsset)
        ensures
            final(self).defined_assets.committed == old(self).defined_assets.committed,
            final(self).defined_assets.pending@ == old(self).defined_assets.pending@.push(asset),
            final(self).defined_assets_dirty,
            final(self).dynamic_state == old(self).dynamic_state,
            final(self).auditable_assets == old(self).auditable_assets,
            final(self).static_data == old(self).static_data,
            final(self).persisted_meta == old(self).persisted_meta,
            final(self).meta == old(self).meta,
            final(self).meta_dirty == old(self).meta_dirty,
            final(self).static_dirty == old(self).static_dirty,
            final(self).dynamic_state_dirty == old(self).dynamic_state_dirty,
            final(self).auditable_assets_dirty == old(self).auditable_assets_dirty,
    {
        self.defined_assets.store_resource(asset);
        self.defined_assets_dirty = true;
    }

    /// The atomic commit boundary: dirty streams advance together.
    pub fn commit(&mut self)
        ensures
            commit_rel(*old(self), *final(self)),
    {
        if self.meta_dirty {
            self.persisted_meta.commit_version();
        } else {
            self.persisted_meta.revert_version();
        }
        if self.static_dirty {
            self.static_data.commit_version();
        } else {
            self.static_data.revert_version();
        }
        if self.dynamic_state_dirty {
            self.dynamic_state.commit_version();
        } else {
            self.dynamic_state.revert_version();
        }
        self.auditable_assets.commit_version();
        self.defined_assets.commit_version();
        self.meta_dirty = false;
        self.static_dirty = false;
        self.dynamic_state_dirty = false;
        self.auditable_assets_dirty = false;
        self.defined_assets_dirty = false;
    }

    /// Discard every uncommitted write, on all streams at once.
    pub fn revert(&mut self)
        ensures
            revert_rel(*old(self), *final(self)),
    {
        self.persisted_meta.revert_version();
        self.static_data.revert_version();
        self.dynamic_state.revert_version();
        self.auditable_assets.revert_version();
        self.defined_assets.revert_version();
    }

    /// Reload: the latest committed dynamic snapshot, and the two
    /// asset registries replayed from their append logs, later entries
    /// winning as in the in-memory maps they mirror.
    pub fn load(self) -> (r: (
        Option<WalletSnapshot>,
        Dict<u64, AssetDefinition>,
        Dict<u64, DefinedAsset>,
    ))
        ensures
            r.0 == self.dynamic_state.committed,
            r.1.wf(),
            r.1@ == replay_auditable(
                self.auditable_assets.committed@,
                self.auditable_assets.committed@.len() as int,
            ),
            r.2.wf(),
            r.2@ == replay_defined(
                self.defined_assets.committed@,
                self.defined_assets.committed@.len() as int,
            ),
    {
        let ghost aud_seq = self.auditable_assets.committed@;
        let ghost def_seq = self.defined_assets.committed@;
        let mut aud_log = self.auditable_assets.committed;
        let mut def_log = self.defined_assets.committed;
        let mut auditable: Dict<u64, AssetDefinition> = Dict::new();
        let ghost mut consumed: int = 0;
        while aud_log.len() > 0
            invariant
                0 <= consumed <= aud_seq.len(),
                aud_log@ =~= aud_seq.subrange(consumed, aud_seq.len() as int),
                auditable.wf(),
                auditable@ == replay_auditable(aud_seq, consumed),
            decreases aud_log@.len(),
        {
            let ghost pre = aud_log@;
            let a = aud_log.remove(0);
            auditable.insert(a.code, a);
            proof {
                assert(a == aud_seq[consumed]);
                consumed = consumed + 1;
                assert(aud_log@ =~= aud_seq.subrange(consumed, aud_seq.len() as int));
                assert(auditable@ == replay_auditable(aud_seq, consumed));
            }
        }
        proof {
            assert(consumed == aud_seq.len());
        }
        let mut defined: Dict<u64, DefinedAsset> = Dict::new();
        let ghost mut dconsumed: int = 0;
        while def_log.len() > 0
            invariant
                0 <= dconsumed <= def_seq.len(),
                def_log@ =~= def_seq.subrange(dconsumed, def_seq.len() as int),
                defined.wf(),
                defined@ == replay_defined(def_seq, dconsumed),
            decreases def_log@.len(),
        {
            let d = def_log.remove(0);
            let code = d.definition.code;
            defined.insert(code, d);
            proof {
                assert(def_seq[dconsumed].definition.code == code);
                dconsumed = dconsumed + 1;
                assert(def_log@ =~= def_seq.subrange(dconsumed, def_seq.len() as int));
                assert(defined@ == replay_defined(def_seq, dconsumed));
            }
        }
        proof {
            assert(dconsumed == def_seq.len());
        }
        (self.dynamic_state.committed, auditable, defined)
    }
}

impl<T> SnapshotLog<T> {
    fn is_committed(&self) -> (r: bool)
        ensures
            r == (self.committed is Some),
    {
        match &self.committed {
            Some(_) => true,
            None => false,
        }
    }
}

/// Storing a snapshot and then committing makes exactly that snapshot
/// the one a reload returns; the append logs keep and adopt their
/// entries.
pub proof fn lemma_snapshot_round_trip(
    s0: AtomicWalletStorage,
    s1: AtomicWalletStorage,
    s2: AtomicWalletStorage,
    w: WalletSnapshot,
)
    requires
        store_snapshot_rel(s0, s1, w),
        commit_rel(s1, s2),
    ensures
        s2.dynamic_state.committed == Some(w),
        s2.auditable_assets.committed@ == s0.auditable_assets.committed@
            + s0.auditable_assets.pending@,
        s2.defined_assets.committed@ == s0.defined_assets.committed@
            + s0.defined_assets.pending@,
{
}

/// A revert after any sequence of stores yields the pre-store state on
/// reload, and a commit after a revert is a no-op on everything
/// committed.
pub proof fn lemma_revert_round_trip(
    s0: AtomicWalletStorage,
    s1: AtomicWalletStorage,
    s2: AtomicWalletStorage,
    s3: AtomicWalletStorage,
    w: WalletSnapshot,
)
    requires
        store_snapshot_rel(s0, s1, w),
        revert_rel(s1, s2),
        commit_rel(s2, s3),
    ensures
        s2.dynamic_state.committed == s0.dynamic_state.committed,
        s3.dynamic_state.committed == s0.dynamic_state.committed,
        s3.persisted_meta.committed == s0.persisted_meta.committed,
        s3.static_data.committed == s0.static_data.committed,
        s3.auditable_assets.committed@ == s0.auditable_assets.committed@,
        s3.defined_assets.committed@ == s0.defined_assets.committed@,
{
    assert(s3.auditable_assets.committed@ =~= s0.auditable_assets.committed@
        + s2.auditable_assets.pending@);
    assert(s3.auditable_assets.committed@ =~= s0.auditable_assets.committed@);
    assert(s3.defined_assets.committed@ =~= s0.defined_assets.committed@
        + s2.defined_assets.pending@);
    assert(s3.defined_assets.committed@ =~= s0.defined_assets.committed@);
}

} // verus!
