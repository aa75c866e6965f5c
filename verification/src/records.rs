//! The record database: every record the wallet owns, audits, or can
//! freeze, held in three coordinated indices.
//!
//! - a primary map `uid -> RecordInfo`;
//! - a secondary map `(asset, owner, freeze status) -> ordered pairs of
//!   (amount, uid)`, ascending, for worst-fit input selection;
//! - a reverse map `nullifier -> uid`, for removal when spent.
//!
//! `wf` states that the three agree; every operation preserves it.

use vstd::prelude::*;
use crate::amount_index::AmountIndex;
use crate::dict::Dict;
use crate::types::{nullify, nullify_spec, record_key_of, record_key_spec, FreezeFlag, Nullifier, RecordKey, RecordOpening};

verus! {

/// A record opening together with its ledger position and hold status.
#[derive(Clone, Copy, Debug, PartialEq, Eq, Structural)]
pub struct RecordInfo {
    pub ro: RecordOpening,
    pub uid: u64,
    /// If `Some(t)`, the record backs an in-flight transaction and may
    /// not be spent again until validator time passes `t`.
    pub hold_until: Option<u64>,
}

impl RecordInfo {
    pub open spec fn on_hold_spec(&self, now: u64) -> bool {
        match self.hold_until {
            Some(t) => t > now,
            None => false,
        }
    }

    pub fn on_hold(&self, now: u64) -> (r: bool)
        ensures
            r == self.on_hold_spec(now),
    {
        match self.hold_until {
            Some(t) => t > now,
            None => false,
        }
    }

    pub open spec fn nullifier_spec(&self) -> Nullifier {
        nullify_spec(self.ro, self.uid)
    }
}

pub struct RecordDatabase {
    pub record_info: Dict<u64, RecordInfo>,
    pub asset_records: Dict<RecordKey, AmountIndex>,
    pub nullifier_records: Dict<Nullifier, u64>,
}

impl RecordDatabase {
    /// The primary index, as a map.
    pub open spec fn recs(&self) -> Map<u64, RecordInfo> {
        self.record_info@
    }

    /// The secondary index's pair list for one key (empty if absent).
    pub open spec fn bucket(&self, k: RecordKey) -> Seq<(u64, u64)> {
        if self.asset_records@.contains_key(k) {
            self.asset_records@[k]@
        } else {
            Seq::empty()
        }
    }

    pub open spec fn bucket_has(&self, k: RecordKey, p: (u64, u64)) -> bool {
        exists|i: int| 0 <= i < self.bucket(k).len() && self.bucket(k)[i] == p
    }

    /// The reverse index, as a map.
    pub open spec fn nuls(&self) -> Map<Nullifier, u64> {
        self.nullifier_records@
    }

    /// The three indices agree.
    pub open spec fn wf(&self) -> bool {
        &&& self.record_info.wf()
        &&& self.asset_records.wf()
        &&& self.nullifier_records.wf()
        &&& forall|k: RecordKey|
            self.asset_records@.contains_key(k) ==> (#[trigger] self.asset_records@[k]).wf()
        &&& forall|u: u64| self.recs().contains_key(u) ==> (#[trigger] self.recs()[u]).uid == u
        &&& forall|u: u64| #[trigger]
            self.recs().contains_key(u) ==> self.bucket_has(
                record_key_spec(self.recs()[u].ro),
                (self.recs()[u].ro.amount, u),
            )
        &&& forall|k: RecordKey, i: int|
            self.asset_records@.contains_key(k) && 0 <= i < self.bucket(k).len()
                ==> self.recs().contains_key((#[trigger] self.bucket(k)[i]).1)
                && self.recs()[self.bucket(k)[i].1].ro.amount == self.bucket(k)[i].0
                && record_key_spec(self.recs()[self.bucket(k)[i].1].ro) == k
        &&& forall|u: u64| #[trigger]
            self.recs().contains_key(u) ==> self.nuls().contains_key(
                self.recs()[u].nullifier_spec(),
            ) && self.nuls()[self.recs()[u].nullifier_spec()] == u
        &&& forall|n: Nullifier| #[trigger]
            self.nuls().contains_key(n) ==> self.nuls()[n] == n.uid && self.recs().contains_key(
                n.uid,
            ) && self.recs()[n.uid].nullifier_spec() == n
    }

    /// The three indices agree on the set of live uids: a uid is known
    /// to the primary index exactly when the secondary index lists it
    /// under the record's slot, exactly when the reverse index maps the
    /// record's nullifier to it.
    pub proof fn lemma_indices_agree(&self, u: u64)
        requires
            self.wf(),
        ensures
            self.recs().contains_key(u) <==> (exists|k: RecordKey, i: int|
                0 <= i < self.bucket(k).len() && (#[trigger] self.bucket(k)[i]).1 == u),
            self.recs().contains_key(u) <==> (exists|n: Nullifier| #[trigger]
                self.nuls().contains_key(n) && n.uid == u),
    {
        if self.recs().contains_key(u) {
            let k = record_key_spec(self.recs()[u].ro);
            assert(self.bucket_has(k, (self.recs()[u].ro.amount, u)));
            let i = choose|i: int|
                0 <= i < self.bucket(k).len() && self.bucket(k)[i] == (self.recs()[u].ro.amount, u);
            assert(self.bucket(k)[i].1 == u);
            let n = self.recs()[u].nullifier_spec();
            assert(self.nuls().contains_key(n) && n.uid == u);
        }
        if exists|k: RecordKey, i: int|
            0 <= i < self.bucket(k).len() && (#[trigger] self.bucket(k)[i]).1 == u {
            let (k, i) = choose|k: RecordKey, i: int|
                0 <= i < self.bucket(k).len() && (#[trigger] self.bucket(k)[i]).1 == u;
            assert(self.asset_records@.contains_key(k));
            assert(self.recs().contains_key(self.bucket(k)[i].1));
        }
        if exists|n: Nullifier| #[trigger] self.nuls().contains_key(n) && n.uid == u {
            let n = choose|n: Nullifier| #[trigger] self.nuls().contains_key(n) && n.uid == u;
            assert(self.recs().contains_key(n.uid));
        }
    }

    pub fn new() -> (r: Self)
        ensures
            r.wf(),
            r.recs() == Map::<u64, RecordInfo>::empty(),
            r.nuls() == Map::<Nullifier, u64>::empty(),
            forall|k: RecordKey| (#[trigger] r.bucket(k)).len() == 0,
    {
        RecordDatabase {
            record_info: Dict::new(),
            asset_records: Dict::new(),
            nullifier_records: Dict::new(),
        }
    }

    /// Remove the record at `uid` from all three indices.
    fn remove_by_uid(&mut self, uid: u64) -> (r: Option<RecordInfo>)
        requires
            old(self).wf(),
        ensures
            final(self).wf(),
            match r {
                Some(ri) => old(self).recs().contains_key(uid) && ri == old(self).recs()[uid]
                    && final(self).recs() == old(self).recs().remove(uid) && final(self).nuls()
                    == old(self).nuls().remove(ri.nullifier_spec()),
                None => !old(self).recs().contains_key(uid) && *final(self) == *old(self),
            },
            forall|k: RecordKey, p: (u64, u64)|
                #[trigger] final(self).bucket_has(k, p) <==> (old(self).bucket_has(k, p) && p.1
                    != uid),
    {
        let info = self.record_info.remove(&uid);
        match info {
            Some(ri) => {
                let key = record_key_of(&ri.ro);
                let n = nullify(&ri.ro, ri.uid);
                proof {
                    assert(ri.uid == uid);
                    assert(old(self).bucket_has(key, (ri.ro.amount, uid)));
                    assert(old(self).asset_records@.contains_key(key));
                }
                match self.asset_records.get_mut(&key) {
                    Some(b) => {
                        b.remove_pair((ri.ro.amount, uid));
                    },
                    None => {
                        proof {
                            assert(false);
                        }
                    },
                }
                self.nullifier_records.remove(&n);
                proof {
                    self.lemma_remove_wf(*old(self), uid, ri, key);
                }
                Some(ri)
            },
            None => None,
        }
    }

    /// After dropping `uid` from all three indices, the database is
    /// well-formed again and the buckets lost exactly `uid`'s pair.
    proof fn lemma_remove_wf(&self, pre: Self, uid: u64, ri: RecordInfo, key: RecordKey)
        requires
            pre.wf(),
            pre.recs().contains_key(uid),
            ri == pre.recs()[uid],
            ri.uid == uid,
            key == record_key_spec(ri.ro),
            self.record_info@ == pre.record_info@.remove(uid),
            self.record_info.wf(),
            self.nullifier_records@ == pre.nullifier_records@.remove(ri.nullifier_spec()),
            self.nullifier_records.wf(),
            self.asset_records.wf(),
            self.asset_records@.contains_key(key),
            pre.asset_records@.contains_key(key),
            self.asset_records@ == pre.asset_records@.insert(key, self.asset_records@[key]),
            self.asset_records@[key].wf(),
            forall|q: (u64, u64)|
                #[trigger] self.asset_records@[key].contains_pair(q) <==> (
                pre.asset_records@[key].contains_pair(q) && q != (ri.ro.amount, uid)),
        ensures
            self.wf(),
            forall|k: RecordKey, p: (u64, u64)|
                #[trigger] self.bucket_has(k, p) <==> (pre.bucket_has(k, p) && p.1 != uid),
    {
        assert forall|k: RecordKey, p: (u64, u64)| #[trigger]
            self.bucket_has(k, p) implies (pre.bucket_has(k, p) && p.1 != uid) by {
            let i = choose|i: int| 0 <= i < self.bucket(k).len() && self.bucket(k)[i] == p;
            if k == key {
                assert(self.asset_records@[key].contains_pair(p));
                assert(pre.asset_records@[key].contains_pair(p));
                let j = choose|j: int|
                    0 <= j < pre.bucket(k).len() && pre.asset_records@[k]@[j] == p;
                assert(pre.bucket(k)[j] == p);
                if p.1 == uid {
                    assert(p != (ri.ro.amount, uid));
                    assert(pre.recs()[p.1].ro.amount == p.0);
                    assert(false);
                }
            } else {
                assert(self.bucket(k) == pre.bucket(k));
                assert(pre.bucket(k)[i] == p);
                if p.1 == uid {
                    assert(pre.recs().contains_key(p.1));
                    assert(record_key_spec(pre.recs()[uid].ro) == k);
                    assert(false);
                }
            }
        }
        assert forall|k: RecordKey, p: (u64, u64)|
            pre.bucket_has(k, p) && p.1 != uid implies #[trigger] self.bucket_has(k, p) by {
            let i = choose|i: int| 0 <= i < pre.bucket(k).len() && pre.bucket(k)[i] == p;
            assert(pre.asset_records@.contains_key(k));
            if k == key {
                assert(pre.asset_records@[key].contains_pair(p));
                assert(p != (ri.ro.amount, uid));
                assert(self.asset_records@[key].contains_pair(p));
                let j = choose|j: int|
                    0 <= j < self.asset_records@[key]@.len() && self.asset_records@[key]@[j] == p;
                assert(self.bucket(k)[j] == p);
            } else {
                assert(self.bucket(k) == pre.bucket(k));
                assert(self.bucket(k)[i] == p);
            }
        }
        assert forall|u: u64| #[trigger]
            self.recs().contains_key(u) implies self.bucket_has(
            record_key_spec(self.recs()[u].ro),
            (self.recs()[u].ro.amount, u),
        ) by {
            assert(pre.recs().contains_key(u) && u != uid);
            assert(pre.bucket_has(record_key_spec(pre.recs()[u].ro), (pre.recs()[u].ro.amount, u)));
        }
        assert forall|k: RecordKey, i: int|
            self.asset_records@.contains_key(k) && 0 <= i < self.bucket(k).len() implies self.recs().contains_key(
            (#[trigger] self.bucket(k)[i]).1,
        ) && self.recs()[self.bucket(k)[i].1].ro.amount == self.bucket(k)[i].0 && record_key_spec(
            self.recs()[self.bucket(k)[i].1].ro,
        ) == k by {
            let p = self.bucket(k)[i];
            assert(self.bucket_has(k, p));
            assert(pre.bucket_has(k, p) && p.1 != uid);
            let j = choose|j: int| 0 <= j < pre.bucket(k).len() && pre.bucket(k)[j] == p;
            assert(pre.asset_records@.contains_key(k));
            assert(pre.recs().contains_key(p.1));
        }
        assert forall|u: u64| #[trigger] self.recs().contains_key(u) implies self.nuls().contains_key(
            self.recs()[u].nullifier_spec(),
        ) && self.nuls()[self.recs()[u].nullifier_spec()] == u by {
            assert(pre.recs().contains_key(u) && u != uid);
            assert(pre.nuls().contains_key(pre.recs()[u].nullifier_spec()));
            assert(pre.recs()[u].nullifier_spec().uid == u);
            assert(ri.nullifier_spec().uid == uid);
        }
        assert forall|n: Nullifier| #[trigger] self.nuls().contains_key(n) implies self.nuls()[n]
            == n.uid && self.recs().contains_key(n.uid) && self.recs()[n.uid].nullifier_spec()
            == n by {
            assert(pre.nuls().contains_key(n));
            assert(n.uid != uid) by {
                if n.uid == uid {
                    assert(pre.recs()[uid].nullifier_spec() == n);
                    assert(n == ri.nullifier_spec());
                }
            }
        }
    }

    /// Insert `ro` at `uid` with the given nullifier, replacing any
    /// record previously known at that uid.
    fn insert_with_nullifier(&mut self, ro: RecordOpening, uid: u64)
        requires
            old(self).wf(),
        ensures
            final(self).wf(),
            final(self).recs() == old(self).recs().insert(
                uid,
                RecordInfo { ro, uid, hold_until: None },
            ),
            forall|n: Nullifier|
                #[trigger] final(self).nuls().contains_key(n) <==> ((old(self).nuls().contains_key(n) && n.uid != uid) || n == nullify_spec(ro, uid)),
            forall|k: RecordKey, p: (u64, u64)|
                #[trigger] final(self).bucket_has(k, p) <==> ((old(self).bucket_has(k, p) && p.1
                    != uid) || (k == record_key_spec(ro) && p == (ro.amount, uid))),
    {
        self.remove_by_uid(uid);
        let ghost mid = *self;
        let key = record_key_of(&ro);
        let n = nullify(&ro, uid);
        if !self.asset_records.contains_key(&key) {
            self.asset_records.insert(key, AmountIndex::new());
        }
        let ghost mid2 = *self;
        proof {
            assert forall|k: RecordKey, p: (u64, u64)| #[trigger]
                mid2.bucket_has(k, p) <==> mid.bucket_has(k, p) by {
                if k == key && !mid.asset_records@.contains_key(key) {
                    assert(mid2.bucket(k).len() == 0);
                    assert(mid.bucket(k).len() == 0);
                } else {
                    assert(mid2.bucket(k) == mid.bucket(k));
                }
            }
        }
        match self.asset_records.get_mut(&key) {
            Some(b) => {
                proof {
                    if b.contains_pair((ro.amount, uid)) {
                        let i = choose|i: int|
                            0 <= i < b@.len() && b@[i] == (ro.amount, uid);
                        assert(mid2.bucket(key)[i] == (ro.amount, uid));
                        assert(mid2.bucket_has(key, (ro.amount, uid)));
                        assert(mid.bucket_has(key, (ro.amount, uid)));
                        assert(false);
                    }
                }
                b.insert_pair((ro.amount, uid));
            },
            None => {
                proof {
                    assert(false);
                }
            },
        }
        self.nullifier_records.insert(n, uid);
        self.record_info.insert(uid, RecordInfo { ro, uid, hold_until: None });
        proof {
            assert(mid2.wf()) by {
                assert(mid2.recs() == mid.recs());
                assert(mid2.nuls() == mid.nuls());
                assert forall|u: u64| #[trigger]
                    mid2.recs().contains_key(u) implies mid2.bucket_has(
                    record_key_spec(mid2.recs()[u].ro),
                    (mid2.recs()[u].ro.amount, u),
                ) by {
                    assert(mid.recs().contains_key(u));
                    assert(mid.bucket_has(
                        record_key_spec(mid.recs()[u].ro),
                        (mid.recs()[u].ro.amount, u),
                    ));
                }
                assert forall|k: RecordKey, i: int|
                    mid2.asset_records@.contains_key(k) && 0 <= i < mid2.bucket(k).len()
                    implies mid2.recs().contains_key((#[trigger] mid2.bucket(k)[i]).1)
                    && mid2.recs()[mid2.bucket(k)[i].1].ro.amount == mid2.bucket(k)[i].0
                    && record_key_spec(mid2.recs()[mid2.bucket(k)[i].1].ro) == k by {
                    if k == key && !mid.asset_records@.contains_key(key) {
                        assert(mid2.bucket(k).len() == 0);
                    } else {
                        assert(mid2.bucket(k) == mid.bucket(k));
                        assert(mid.asset_records@.contains_key(k));
                    }
                }
            }
            assert(forall|p: (u64, u64)| #[trigger] mid2.bucket_has(key, p) ==> p.1 != uid);
            assert forall|n2: Nullifier| #[trigger] mid2.nuls().contains_key(n2) implies n2.uid
                != uid by {
                assert(mid.nuls().contains_key(n2));
                if n2.uid == uid {
                    assert(mid.recs().contains_key(uid));
                }
            }
            self.lemma_insert_wf(mid2, ro, uid, key);
            assert forall|k: RecordKey, p: (u64, u64)| #[trigger]
                final(self).bucket_has(k, p) <==> ((old(self).bucket_has(k, p) && p.1 != uid) || (k
                == record_key_spec(ro) && p == (ro.amount, uid))) by {
                assert(self.bucket_has(k, p) <==> (mid2.bucket_has(k, p) || (k == key && p == (
                ro.amount,
                uid,
                ))));
                assert(mid2.bucket_has(k, p) <==> mid.bucket_has(k, p));
            }
        }
    }

    /// After writing the new record into all three indices, the
    /// database is well-formed and the buckets gained exactly its pair.
    proof fn lemma_insert_wf(&self, mid: Self, ro: RecordOpening, uid: u64, key: RecordKey)
        requires
            mid.wf(),
            !mid.recs().contains_key(uid),
            forall|p: (u64, u64)| #[trigger] mid.bucket_has(key, p) ==> p.1 != uid,
            forall|n: Nullifier| #[trigger] mid.nuls().contains_key(n) ==> n.uid != uid,
            key == record_key_spec(ro),
            self.record_info@ == mid.record_info@.insert(
                uid,
                RecordInfo { ro, uid, hold_until: None },
            ),
            self.record_info.wf(),
            self.nullifier_records@ == mid.nullifier_records@.insert(nullify_spec(ro, uid), uid),
            self.nullifier_records.wf(),
            self.asset_records.wf(),
            self.asset_records@.contains_key(key),
            mid.asset_records@.contains_key(key),
            self.asset_records@ == mid.asset_records@.insert(key, self.asset_records@[key]),
            self.asset_records@[key].wf(),
            self.asset_records@[key]@.len() == mid.asset_records@[key]@.len() + 1,
            forall|q: (u64, u64)|
                #[trigger] self.asset_records@[key].contains_pair(q) <==> (
                mid.asset_records@[key].contains_pair(q) || q == (ro.amount, uid)),
        ensures
            self.wf(),
            forall|k: RecordKey, p: (u64, u64)|
                #[trigger] self.bucket_has(k, p) <==> (mid.bucket_has(k, p) || (k == key && p == (
                ro.amount,
                uid,
                ))),
    {
        assert forall|k: RecordKey, p: (u64, u64)| #[trigger]
            self.bucket_has(k, p) <==> (mid.bucket_has(k, p) || (k == key && p == (
        ro.amount,
        uid,
        ))) by {
            if k == key {
                assert(self.bucket(k) == self.asset_records@[key]@);
                assert(self.bucket_has(k, p) <==> self.asset_records@[key].contains_pair(p));
                assert(mid.bucket_has(k, p) <==> mid.asset_records@[key].contains_pair(p));
            } else {
                assert(self.bucket(k) == mid.bucket(k));
            }
        }
        assert forall|u: u64| #[trigger]
            self.recs().contains_key(u) implies self.bucket_has(
            record_key_spec(self.recs()[u].ro),
            (self.recs()[u].ro.amount, u),
        ) by {
            if u == uid {
                assert(self.asset_records@[key].contains_pair((ro.amount, uid)));
                assert(self.bucket_has(key, (ro.amount, uid)));
            } else {
                assert(mid.recs().contains_key(u));
                assert(mid.bucket_has(
                    record_key_spec(mid.recs()[u].ro),
                    (mid.recs()[u].ro.amount, u),
                ));
            }
        }
        assert forall|k: RecordKey, i: int|
            self.asset_records@.contains_key(k) && 0 <= i < self.bucket(k).len() implies self.recs().contains_key(
            (#[trigger] self.bucket(k)[i]).1,
        ) && self.recs()[self.bucket(k)[i].1].ro.amount == self.bucket(k)[i].0 && record_key_spec(
            self.recs()[self.bucket(k)[i].1].ro,
        ) == k by {
            let p = self.bucket(k)[i];
            assert(self.bucket_has(k, p));
            if k == key && p == (ro.amount, uid) {
            } else {
                assert(mid.bucket_has(k, p));
                let j = choose|j: int| 0 <= j < mid.bucket(k).len() && mid.bucket(k)[j] == p;
                assert(mid.asset_records@.contains_key(k));
                assert(mid.recs().contains_key(p.1));
                assert(p.1 != uid);
            }
        }
        assert forall|u: u64| #[trigger] self.recs().contains_key(u) implies self.nuls().contains_key(
            self.recs()[u].nullifier_spec(),
        ) && self.nuls()[self.recs()[u].nullifier_spec()] == u by {
            if u != uid {
                assert(mid.recs().contains_key(u));
                assert(mid.nuls().contains_key(mid.recs()[u].nullifier_spec()));
                assert(mid.recs()[u].nullifier_spec().uid == u);
            }
        }
        assert forall|n: Nullifier| #[trigger] self.nuls().contains_key(n) implies self.nuls()[n]
            == n.uid && self.recs().contains_key(n.uid) && self.recs()[n.uid].nullifier_spec()
            == n by {
            if n != nullify_spec(ro, uid) {
                assert(mid.nuls().contains_key(n));
                assert(n.uid != uid);
            }
        }
    }

    /// Insert a record we own: the nullifier is derived from our key.
    pub fn insert(&mut self, ro: RecordOpening, uid: u64, owner_key: u64)
        requires
            old(self).wf(),
            ro.pub_key == owner_key,
        ensures
            final(self).wf(),
            final(self).recs() == old(self).recs().insert(
                uid,
                RecordInfo { ro, uid, hold_until: None },
            ),
            forall|n: Nullifier|
                #[trigger] final(self).nuls().contains_key(n) <==> ((old(self).nuls().contains_key(n) && n.uid != uid) || n == nullify_spec(ro, uid)),
            forall|k: RecordKey, p: (u64, u64)|
                #[trigger] final(self).bucket_has(k, p) <==> ((old(self).bucket_has(k, p) && p.1
                    != uid) || (k == record_key_spec(ro) && p == (ro.amount, uid))),
    {
        self.insert_with_nullifier(ro, uid);
    }

    /// Insert a record someone else owns but whose asset we can freeze:
    /// the nullifier is derived from our freezer key.
    pub fn insert_freezable(&mut self, ro: RecordOpening, uid: u64, freezer_key: u64)
        requires
            old(self).wf(),
            ro.asset_def.policy.freezer_pub_key == freezer_key,
        ensures
            final(self).wf(),
            final(self).recs() == old(self).recs().insert(
                uid,
                RecordInfo { ro, uid, hold_until: None },
            ),
            forall|n: Nullifier|
                #[trigger] final(self).nuls().contains_key(n) <==> ((old(self).nuls().contains_key(n) && n.uid != uid) || n == nullify_spec(ro, uid)),
            forall|k: RecordKey, p: (u64, u64)|
                #[trigger] final(self).bucket_has(k, p) <==> ((old(self).bucket_has(k, p) && p.1
                    != uid) || (k == record_key_spec(ro) && p == (ro.amount, uid))),
    {
        self.insert_with_nullifier(ro, uid);
    }

    /// The record whose spend would reveal `n`, if we know one.
    pub fn record_with_nullifier(&self, n: &Nullifier) -> (r: Option<&RecordInfo>)
        requires
            self.wf(),
        ensures
            match r {
                Some(ri) => self.nuls().contains_key(*n) && self.recs().contains_key(ri.uid) && *ri
                    == self.recs()[ri.uid] && ri.nullifier_spec() == *n && ri.uid == n.uid,
                None => !self.nuls().contains_key(*n),
            },
    {
        match self.nullifier_records.get(n) {
            Some(uid) => {
                proof {
                    assert(self.nuls().contains_key(*n));
                    assert(self.recs().contains_key(n.uid));
                }
                match self.record_info.get(uid) {
                    Some(ri) => Some(ri),
                    None => {
                        proof {
                            assert(false);
                        }
                        None
                    },
                }
            },
            None => None,
        }
    }

    /// Remove the record whose nullifier is `n`, if we know one.
    pub fn remove_by_nullifier(&mut self, n: Nullifier) -> (r: Option<RecordInfo>)
        requires
            old(self).wf(),
        ensures
            final(self).wf(),
            match r {
                Some(ri) => old(self).nuls().contains_key(n) && ri.uid == n.uid && ri == old(self).recs()[n.uid] && final(self).recs() == old(self).recs().remove(n.uid) && final(self).nuls() == old(self).nuls().remove(n),
                None => !old(self).nuls().contains_key(n) && *final(self) == *old(self),
            },
            forall|k: RecordKey, p: (u64, u64)|
                #[trigger] final(self).bucket_has(k, p) <==> (old(self).bucket_has(k, p) && (
                !old(self).nuls().contains_key(n) || p.1 != n.uid)),
    {
        let has = self.nullifier_records.contains_key(&n);
        if has {
            proof {
                assert(old(self).nuls().contains_key(n));
                assert(old(self).recs().contains_key(n.uid));
                assert(old(self).recs()[n.uid].nullifier_spec() == n);
            }
            let r = self.remove_by_uid(n.uid);
            r
        } else {
            proof {
                assert forall|k: RecordKey, p: (u64, u64)| #[trigger]
                    final(self).bucket_has(k, p) <==> old(self).bucket_has(k, p) by {}
            }
            None
        }
    }

    /// Place the record with nullifier `n` on hold until `until`.
    /// Reports whether the record was found.
    pub fn hold_record_with_nullifier(&mut self, n: &Nullifier, until: u64) -> (r: bool)
        requires
            old(self).wf(),
        ensures
            final(self).wf(),
            r == old(self).nuls().contains_key(*n),
            r ==> final(self).recs() == old(self).recs().insert(
                n.uid,
                RecordInfo {
                    ro: old(self).recs()[n.uid].ro,
                    uid: n.uid,
                    hold_until: Some(until),
                },
            ),
            !r ==> *final(self) == *old(self),
            final(self).nuls() == old(self).nuls(),
            forall|k: RecordKey| #[trigger] final(self).bucket(k) == old(self).bucket(k),
    {
        self.set_hold(n, Some(until))
    }

    /// Release any hold on the record with nullifier `n`.
    pub fn unhold_record_with_nullifier(&mut self, n: &Nullifier) -> (r: bool)
        requires
            old(self).wf(),
        ensures
            final(self).wf(),
            r == old(self).nuls().contains_key(*n),
            r ==> final(self).recs() == old(self).recs().insert(
                n.uid,
                RecordInfo { ro: old(self).recs()[n.uid].ro, uid: n.uid, hold_until: None },
            ),
            !r ==> *final(self) == *old(self),
            final(self).nuls() == old(self).nuls(),
            forall|k: RecordKey| #[trigger] final(self).bucket(k) == old(self).bucket(k),
    {
        self.set_hold(n, None)
    }

    fn set_hold(&mut self, n: &Nullifier, hold_until: Option<u64>) -> (r: bool)
        requires
            old(self).wf(),
        ensures
            final(self).wf(),
            r == old(self).nuls().contains_key(*n),
            r ==> final(self).recs() == old(self).recs().insert(
                n.uid,
                RecordInfo { ro: old(self).recs()[n.uid].ro, uid: n.uid, hold_until: hold_until },
            ),
            !r ==> *final(self) == *old(self),
            final(self).nuls() == old(self).nuls(),
            forall|k: RecordKey| #[trigger] final(self).bucket(k) == old(self).bucket(k),
    {
        let has = self.nullifier_records.contains_key(n);
        if has {
            proof {
                assert(old(self).nuls().contains_key(*n));
                assert(old(self).recs().contains_key(n.uid));
            }
            match self.record_info.get_mut(&n.uid) {
                Some(ri) => {
                    let ghost pre_ri = *ri;
                    ri.hold_until = hold_until;
                    proof {
                        assert(pre_ri.ro == old(self).recs()[n.uid].ro);
                        assert(pre_ri.uid == n.uid);
                    }
                },
                None => {
                    proof {
                        assert(false);
                    }
                },
            }
            proof {
                self.lemma_hold_wf(*old(self), n.uid);
            }
            true
        } else {
            false
        }
    }

    /// Changing only a record's hold leaves all three indices agreeing.
    proof fn lemma_hold_wf(&self, pre: Self, uid: u64)
        requires
            pre.wf(),
            pre.recs().contains_key(uid),
            self.record_info.wf(),
            exists|h: Option<u64>|
                self.record_info@ == pre.record_info@.insert(
                    uid,
                    (RecordInfo { ro: pre.recs()[uid].ro, uid: uid, hold_until: h }),
                ),
            self.asset_records == pre.asset_records,
            self.nullifier_records == pre.nullifier_records,
        ensures
            self.wf(),
    {
        let h = choose|h: Option<u64>|
            self.record_info@ == pre.record_info@.insert(
                uid,
                (RecordInfo { ro: pre.recs()[uid].ro, uid: uid, hold_until: h }),
            );
        assert forall|u: u64| #[trigger]
            self.recs().contains_key(u) implies self.bucket_has(
            record_key_spec(self.recs()[u].ro),
            (self.recs()[u].ro.amount, u),
        ) by {
            assert(pre.recs().contains_key(u));
            assert(pre.bucket_has(record_key_spec(pre.recs()[u].ro), (pre.recs()[u].ro.amount, u)));
            assert(self.recs()[u].ro == pre.recs()[u].ro);
            assert forall|k: RecordKey, p: (u64, u64)| #[trigger]
                pre.bucket_has(k, p) implies self.bucket_has(k, p) by {
                assert(self.bucket(k) == pre.bucket(k));
            }
        }
        assert forall|k: RecordKey, i: int|
            self.asset_records@.contains_key(k) && 0 <= i < self.bucket(k).len() implies self.recs().contains_key(
            (#[trigger] self.bucket(k)[i]).1,
        ) && self.recs()[self.bucket(k)[i].1].ro.amount == self.bucket(k)[i].0 && record_key_spec(
            self.recs()[self.bucket(k)[i].1].ro,
        ) == k by {
            assert(pre.bucket(k) == self.bucket(k));
            let p = self.bucket(k)[i];
            assert(pre.recs().contains_key(p.1));
            assert(self.recs()[p.1].ro == pre.recs()[p.1].ro);
        }
        assert forall|u: u64| #[trigger] self.recs().contains_key(u) implies self.nuls().contains_key(
            self.recs()[u].nullifier_spec(),
        ) && self.nuls()[self.recs()[u].nullifier_spec()] == u by {
            assert(pre.recs().contains_key(u));
            assert(self.recs()[u].nullifier_spec() == pre.recs()[u].nullifier_spec());
        }
        assert forall|n2: Nullifier| #[trigger] self.nuls().contains_key(n2) implies self.nuls()[n2]
            == n2.uid && self.recs().contains_key(n2.uid) && self.recs()[n2.uid].nullifier_spec()
            == n2 by {
            assert(pre.nuls().contains_key(n2));
            assert(self.recs()[n2.uid].nullifier_spec() == pre.recs()[n2.uid].nullifier_spec());
        }
    }
}

/// Sum of the first `n` candidate amounts, as a mathematical integer.
pub open spec fn amounts_sum(s: Seq<RecordInfo>, n: int) -> int
    decreases n,
{
    if n <= 0 {
        0
    } else {
        amounts_sum(s, n - 1) + s[n - 1].ro.amount
    }
}

impl RecordDatabase {
    /// Is this bucket entry usable as a transaction input now? Dummy
    /// zero-amount records and records on hold are not.
    pub open spec fn keep_spec(&self, p: (u64, u64), now: u64) -> bool {
        p.0 > 0 && !self.recs()[p.1].on_hold_spec(now)
    }

    /// The usable inputs drawn from bucket positions below `i`, walking
    /// downward: descending size order.
    pub open spec fn cands_below(&self, k: RecordKey, now: u64, i: int) -> Seq<RecordInfo>
        decreases i,
    {
        if i <= 0 {
            Seq::empty()
        } else {
            let p = self.bucket(k)[i - 1];
            if self.keep_spec(p, now) {
                seq![self.recs()[p.1]] + self.cands_below(k, now, i - 1)
            } else {
                self.cands_below(k, now, i - 1)
            }
        }
    }

    /// All usable inputs of one slot, largest first.
    pub open spec fn cands(&self, k: RecordKey, now: u64) -> Seq<RecordInfo> {
        self.cands_below(k, now, self.bucket(k).len() as int)
    }

    /// Every candidate is a live, usable record of the slot, amounts
    /// come out in descending order, and no record appears twice.
    pub proof fn lemma_cands_wf(&self, k: RecordKey, now: u64, i: int)
        requires
            self.wf(),
            0 <= i <= self.bucket(k).len(),
        ensures
            self.cands_below(k, now, i).len() <= i,
            forall|j: int|
                0 <= j < self.cands_below(k, now, i).len() ==> exists|m: int|
                    0 <= m < i && self.bucket(k)[m] == ((#[trigger] self.cands_below(
                        k,
                        now,
                        i,
                    )[j]).ro.amount, self.cands_below(k, now, i)[j].uid),
            forall|j: int|
                0 <= j < self.cands_below(k, now, i).len() ==> {
                    let el = #[trigger] self.cands_below(k, now, i)[j];
                    self.recs().contains_key(el.uid) && el == self.recs()[el.uid] && el.ro.amount
                        > 0 && !el.on_hold_spec(now) && record_key_spec(el.ro) == k
                },
            forall|j1: int, j2: int|
                0 <= j1 < j2 < self.cands_below(k, now, i).len() ==> (
                #[trigger] self.cands_below(k, now, i)[j1]).ro.amount >= (
                #[trigger] self.cands_below(k, now, i)[j2]).ro.amount && self.cands_below(
                    k,
                    now,
                    i,
                )[j1].uid != self.cands_below(k, now, i)[j2].uid,
        decreases i,
    {
        if i > 0 {
            self.lemma_cands_wf(k, now, i - 1);
            let c = self.cands_below(k, now, i);
            let tail = self.cands_below(k, now, i - 1);
            let p = self.bucket(k)[i - 1];
            assert(self.asset_records@.contains_key(k) || self.bucket(k).len() == 0);
            if self.keep_spec(p, now) {
                assert(c == seq![self.recs()[p.1]] + tail);
                assert(c[0] == self.recs()[p.1]);
                assert(self.recs().contains_key(p.1));
                assert(self.recs()[p.1].uid == p.1);
                assert(self.recs()[p.1].ro.amount == p.0);
                assert forall|j: int| 0 <= j < c.len() implies exists|m: int|
                    0 <= m < i && self.bucket(k)[m] == ((#[trigger] c[j]).ro.amount, c[j].uid) by {
                    if j == 0 {
                        assert(self.bucket(k)[i - 1] == (c[0].ro.amount, c[0].uid));
                    } else {
                        assert(c[j] == tail[j - 1]);
                        let m = choose|m: int|
                            0 <= m < i - 1 && self.bucket(k)[m] == ((tail[j - 1]).ro.amount, tail[j
                                - 1].uid);
                        assert(self.bucket(k)[m] == (c[j].ro.amount, c[j].uid));
                    }
                }
                assert forall|j: int| 0 <= j < c.len() implies {
                    let el = #[trigger] c[j];
                    self.recs().contains_key(el.uid) && el == self.recs()[el.uid] && el.ro.amount
                        > 0 && !el.on_hold_spec(now) && record_key_spec(el.ro) == k
                } by {
                    if j > 0 {
                        assert(c[j] == tail[j - 1]);
                        assert(0 <= j - 1 < tail.len());
                        assert({
                            let el = tail[j - 1];
                            self.recs().contains_key(el.uid) && el == self.recs()[el.uid]
                                && el.ro.amount > 0 && !el.on_hold_spec(now) && record_key_spec(
                                el.ro,
                            ) == k
                        });
                    }
                }
                assert forall|j1: int, j2: int| 0 <= j1 < j2 < c.len() implies (
                #[trigger] c[j1]).ro.amount >= (#[trigger] c[j2]).ro.amount && c[j1].uid
                    != c[j2].uid by {
                    if j1 == 0 {
                        assert(c[j2] == tail[j2 - 1]);
                        let m = choose|m: int|
                            0 <= m < i - 1 && self.bucket(k)[m] == ((tail[j2 - 1]).ro.amount,
                            tail[j2 - 1].uid);
                        assert(crate::amount_index::pair_lt(
                            self.bucket(k)[m],
                            self.bucket(k)[i - 1],
                        )) by {
                            assert(self.asset_records@[k].wf());
                        }
                        assert(c[j2].ro.amount <= c[0].ro.amount);
                        if c[j2].uid == c[0].uid {
                            assert(self.bucket(k)[m].1 == p.1);
                            assert(self.recs()[self.bucket(k)[m].1].ro.amount == self.bucket(
                                k,
                            )[m].0);
                            assert(self.bucket(k)[m].0 == p.0);
                            assert(false);
                        }
                    } else {
                        assert(c[j1] == tail[j1 - 1] && c[j2] == tail[j2 - 1]);
                        assert((tail[j1 - 1]).ro.amount >= (tail[j2 - 1]).ro.amount && tail[j1
                            - 1].uid != tail[j2 - 1].uid);
                    }
                }
            } else {
                assert(c == tail);
            }
        }
    }

    /// Records usable as inputs for one (asset, owner, freeze status)
    /// slot, in descending size order, skipping zero-amount dummies and
    /// records on hold.
    pub fn input_records(&self, asset: u64, owner: u64, frozen: FreezeFlag, now: u64) -> (r: Vec<
        RecordInfo,
    >)
        requires
            self.wf(),
        ensures
            r@ == self.cands(
                RecordKey { asset_code: asset, owner: owner, frozen: frozen },
                now,
            ),
    {
        let key = RecordKey { asset_code: asset, owner: owner, frozen: frozen };
        let mut result: Vec<RecordInfo> = Vec::new();
        let n = match self.asset_records.get(&key) {
            Some(b) => b.len(),
            None => 0,
        };
        proof {
            assert(n == self.bucket(key).len());
        }
        let mut i: usize = n;
        while i > 0
            invariant
                self.wf(),
                key == (RecordKey { asset_code: asset, owner: owner, frozen: frozen }),
                n == self.bucket(key).len(),
                i <= n,
                self.cands_below(key, now, n as int) == result@ + self.cands_below(
                    key,
                    now,
                    i as int,
                ),
            decreases i,
        {
            let ghost pre = result@;
            let p = match self.asset_records.get(&key) {
                Some(b) => b.at(i - 1),
                None => {
                    proof {
                        assert(false);
                    }
                    (0, 0)
                },
            };
            proof {
                assert(p == self.bucket(key)[i - 1]);
            }
            if p.0 > 0 {
                match self.record_info.get(&p.1) {
                    Some(ri) => {
                        if !ri.on_hold(now) {
                            result.push(*ri);
                        }
                    },
                    None => {
                        proof {
                            assert(false);
                        }
                    },
                }
            }
            i = i - 1;
            proof {
                let c_i1 = self.cands_below(key, now, i + 1);
                let c_i = self.cands_below(key, now, i as int);
                if self.keep_spec(p, now) {
                    assert(c_i1 == seq![self.recs()[p.1]] + c_i);
                    assert(result@ == pre + seq![self.recs()[p.1]]);
                    assert(pre + c_i1 =~= result@ + c_i);
                } else {
                    assert(c_i1 == c_i);
                    assert(result@ == pre);
                }
            }
        }
        proof {
            assert(self.cands_below(key, now, 0) =~= Seq::<RecordInfo>::empty());
            assert(result@ + self.cands_below(key, now, 0) =~= result@);
        }
        result
    }

    /// Does some usable record of the slot have exactly this amount?
    pub open spec fn has_exact_spec(&self, k: RecordKey, amount: u64, now: u64) -> bool {
        exists|i: int|
            0 <= i < self.bucket(k).len() && (#[trigger] self.bucket(k)[i]).0 == amount
                && !self.recs()[self.bucket(k)[i].1].on_hold_spec(now)
    }

    /// A record of the slot with exactly the requested amount, not on
    /// hold, if one exists.
    pub fn input_record_with_amount(
        &self,
        asset: u64,
        owner: u64,
        frozen: FreezeFlag,
        amount: u64,
        now: u64,
    ) -> (r: Option<RecordInfo>)
        requires
            self.wf(),
        ensures
            ({
                let k = RecordKey { asset_code: asset, owner: owner, frozen: frozen };
                match r {
                    Some(ri) => self.has_exact_spec(k, amount, now) && self.recs().contains_key(
                        ri.uid,
                    ) && ri == self.recs()[ri.uid] && ri.ro.amount == amount
                        && !ri.on_hold_spec(now) && record_key_spec(ri.ro) == k,
                    None => !self.has_exact_spec(k, amount, now),
                }
            }),
    {
        let key = RecordKey { asset_code: asset, owner: owner, frozen: frozen };
        let n = match self.asset_records.get(&key) {
            Some(b) => b.len(),
            None => 0,
        };
        proof {
            assert(n == self.bucket(key).len());
        }
        let mut i: usize = 0;
        while i < n
            invariant
                self.wf(),
                key == (RecordKey { asset_code: asset, owner: owner, frozen: frozen }),
                n == self.bucket(key).len(),
                i <= n,
                forall|j: int|
                    0 <= j < i ==> !((#[trigger] self.bucket(key)[j]).0 == amount
                        && !self.recs()[self.bucket(key)[j].1].on_hold_spec(now)),
            decreases n - i,
        {
            let p = match self.asset_records.get(&key) {
                Some(b) => b.at(i),
                None => {
                    proof {
                        assert(false);
                    }
                    (0, 0)
                },
            };
            proof {
                assert(p == self.bucket(key)[i as int]);
            }
            if p.0 == amount {
                match self.record_info.get(&p.1) {
                    Some(ri) => {
                        if !ri.on_hold(now) {
                            proof {
                                assert(self.bucket(key)[i as int].0 == amount
                                    && !self.recs()[self.bucket(key)[i as int].1].on_hold_spec(
                                    now,
                                ));
                                assert(self.recs().contains_key(p.1));
                                assert(self.recs()[p.1].uid == p.1);
                                assert(self.recs()[p.1].ro.amount == p.0);
                                assert(record_key_spec(self.recs()[p.1].ro) == key);
                            }
                            return Some(*ri);
                        }
                    },
                    None => {
                        proof {
                            assert(false);
                        }
                    },
                }
            }
            i = i + 1;
        }
        None
    }
}


} // verus!
