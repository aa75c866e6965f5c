//! A small verified association map.
//!
//! The wallet keeps several indexed stores (records by uid, records by
//! nullifier, pending transactions by fee nullifier, asset registries).
//! `Dict` backs all of them: a vector of key/value pairs with distinct
//! keys, viewed in specifications as a `Map`.

use vstd::prelude::*;

verus! {

/// Keys of a `Dict`: plain-data types whose `==` decides spec equality.
pub trait DictKey: Sized + Copy {
    fn key_eq(&self, other: &Self) -> (r: bool)
        ensures
            r <==> (*self == *other),
    ;
}

impl DictKey for u64 {
    fn key_eq(&self, other: &Self) -> (r: bool) {
        *self == *other
    }
}

pub struct Dict<K, V> {
    entries: Vec<(K, V)>,
}

impl<K: DictKey, V> View for Dict<K, V> {
    type V = Map<K, V>;

    closed spec fn view(&self) -> Map<K, V> {
        Self::map_of(self.entries@)
    }
}

impl<K: DictKey, V> Dict<K, V> {
    /// The map an entry sequence denotes: later entries would win, but
    /// well-formed dictionaries have distinct keys.
    pub closed spec fn map_of(s: Seq<(K, V)>) -> Map<K, V>
        decreases s.len(),
    {
        if s.len() == 0 {
            Map::empty()
        } else {
            Self::map_of(s.drop_last()).insert(s.last().0, s.last().1)
        }
    }

    /// The underlying entry sequence, for iteration.
    pub closed spec fn entries_seq(&self) -> Seq<(K, V)> {
        self.entries@
    }

    /// Well-formed: no two entries share a key.
    pub closed spec fn wf(&self) -> bool {
        forall|i: int, j: int|
            0 <= i < j < self.entries@.len() ==> (#[trigger] self.entries@[i]).0 != (
            #[trigger] self.entries@[j]).0
    }

    proof fn lemma_map_of_props(s: Seq<(K, V)>)
        ensures
            forall|k: K| #[trigger]
                Self::map_of(s).contains_key(k) <==> exists|i: int|
                    0 <= i < s.len() && (#[trigger] s[i]).0 == k,
        decreases s.len(),
    {
        if s.len() > 0 {
            Self::lemma_map_of_props(s.drop_last());
            assert forall|k: K| #[trigger] Self::map_of(s).contains_key(k) implies exists|i: int|
                0 <= i < s.len() && (#[trigger] s[i]).0 == k by {
                if s.last().0 == k {
                    assert(s[s.len() - 1].0 == k);
                } else {
                    assert(Self::map_of(s.drop_last()).contains_key(k));
                    let i = choose|i: int|
                        0 <= i < s.drop_last().len() && (#[trigger] s.drop_last()[i]).0 == k;
                    assert(s.drop_last()[i] == s[i]);
                    assert(s[i].0 == k);
                }
            }
            assert forall|k: K|
                exists|i: int| 0 <= i < s.len() && (#[trigger] s[i]).0 == k implies #[trigger] Self::map_of(
                s).contains_key(k) by {
                let i = choose|i: int| 0 <= i < s.len() && (#[trigger] s[i]).0 == k;
                if i < s.len() - 1 {
                    assert(s.drop_last()[i].0 == k);
                    assert(Self::map_of(s.drop_last()).contains_key(k));
                }
            }
        }
    }

    /// In a well-formed sequence, each entry gives the map's value at its key.
    proof fn lemma_map_of_at(s: Seq<(K, V)>, i: int)
        requires
            forall|p: int, q: int|
                0 <= p < q < s.len() ==> (#[trigger] s[p]).0 != (#[trigger] s[q]).0,
            0 <= i < s.len(),
        ensures
            Self::map_of(s).contains_key(s[i].0),
            Self::map_of(s)[s[i].0] == s[i].1,
        decreases s.len(),
    {
        if i == s.len() - 1 {
            Self::lemma_map_of_props(s.drop_last());
            assert(!Self::map_of(s.drop_last()).contains_key(s[i].0));
        } else {
            Self::lemma_map_of_at(s.drop_last(), i);
            assert(s.drop_last()[i] == s[i]);
        }
    }

    pub proof fn lemma_entry(&self, i: int)
        requires
            self.wf(),
            0 <= i < self.entries_seq().len(),
        ensures
            self@.contains_key(self.entries_seq()[i].0),
            self@[self.entries_seq()[i].0] == self.entries_seq()[i].1,
    {
        Self::lemma_map_of_at(self.entries@, i);
    }


    /// A key the map holds is held by some entry.
    pub proof fn lemma_key_has_entry(&self, k: K)
        requires
            self.wf(),
            self@.contains_key(k),
        ensures
            exists|i: int|
                0 <= i < self.entries_seq().len() && (#[trigger] self.entries_seq()[i]).0 == k
                    && self.entries_seq()[i].1 == self@[k],
    {
        Self::lemma_map_of_props(self.entries@);
        let i = choose|i: int| 0 <= i < self.entries@.len() && (#[trigger] self.entries@[i]).0 == k;
        Self::lemma_map_of_at(self.entries@, i);
        assert(0 <= i < self.entries_seq().len() && self.entries_seq()[i].0 == k
            && self.entries_seq()[i].1 == self@[k]);
    }

    pub fn new() -> (r: Self)
        ensures
            r.wf(),
            r@ == Map::<K, V>::empty(),
            r.entries_seq().len() == 0,
    {
        Dict { entries: Vec::new() }
    }

    pub fn len(&self) -> (r: usize)
        ensures
            r == self.entries_seq().len(),
    {
        self.entries.len()
    }

    pub fn entry_at(&self, i: usize) -> (r: &(K, V))
        requires
            i < self.entries_seq().len(),
        ensures
            *r == self.entries_seq()[i as int],
    {
        &self.entries[i]
    }

    /// Index of the entry holding `k`, if any.
    fn find(&self, k: &K) -> (r: Option<usize>)
        requires
            self.wf(),
        ensures
            match r {
                Some(i) => self@.contains_key(*k) && i < self.entries_seq().len()
                    && self.entries_seq()[i as int].0 == *k && self.entries_seq()[i as int].1
                    == self@[*k],
                None => !self@.contains_key(*k),
            },
    {
        let ghost s = self.entries@;
        let n = self.entries.len();
        for i in 0..n
            invariant
                n == s.len(),
                self.entries@ == s,
                self.wf(),
                forall|j: int| 0 <= j < i ==> (#[trigger] s[j]).0 != *k,
        {
            if self.entries[i].0.key_eq(k) {
                proof {
                    self.lemma_entry(i as int);
                }
                return Some(i);
            }
        }
        proof {
            Self::lemma_map_of_props(s);
        }
        None
    }

    pub fn contains_key(&self, k: &K) -> (r: bool)
        requires
            self.wf(),
        ensures
            r == self@.contains_key(*k),
    {
        self.find(k).is_some()
    }

    pub fn get(&self, k: &K) -> (r: Option<&V>)
        requires
            self.wf(),
        ensures
            match r {
                Some(v) => self@.contains_key(*k) && *v == self@[*k],
                None => !self@.contains_key(*k),
            },
    {
        match self.find(k) {
            Some(i) => Some(&self.entries[i].1),
            None => None,
        }
    }

    pub fn get_mut(&mut self, k: &K) -> (r: Option<&mut V>)
        requires
            old(self).wf(),
        ensures
            final(self).wf(),
            match r {
                Some(v) => old(self)@.contains_key(*k) && *v == old(self)@[*k] && final(self)@
                    == old(self)@.insert(*k, *final(v)) && final(self).entries_seq().len() == old(
                    self).entries_seq().len(),
                None => !old(self)@.contains_key(*k) && *final(self) == *old(self),
            },
    {
        match self.find(k) {
            Some(i) => {
                let ghost s = self.entries@;
                let entry = &mut self.entries[i].1;
                proof {
                    assert forall|p: int, q: int|
                        0 <= p < q < s.len() implies (#[trigger] s.update(
                        i as int,
                        (s[i as int].0, *final(entry)),
                    )[p]).0 != (#[trigger] s.update(i as int, (s[i as int].0, *final(entry)))[q]).0 by {
                        assert(s[p].0 != s[q].0);
                    }
                    Self::lemma_map_of_update(s, i as int, *final(entry));
                }
                Some(entry)
            },
            None => None,
        }
    }

    /// Updating one entry's value updates the map at its key.
    proof fn lemma_map_of_update(s: Seq<(K, V)>, i: int, v: V)
        requires
            forall|p: int, q: int|
                0 <= p < q < s.len() ==> (#[trigger] s[p]).0 != (#[trigger] s[q]).0,
            0 <= i < s.len(),
        ensures
            Self::map_of(s.update(i, (s[i].0, v))) == Self::map_of(s).insert(s[i].0, v),
        decreases s.len(),
    {
        let t = s.update(i, (s[i].0, v));
        if i == s.len() - 1 {
            assert(t.drop_last() =~= s.drop_last());
            assert(Self::map_of(t) =~= Self::map_of(s).insert(s[i].0, v));
        } else {
            Self::lemma_map_of_update(s.drop_last(), i, v);
            assert(t.drop_last() =~= s.drop_last().update(i, (s[i].0, v)));
            Self::lemma_map_of_props(s.drop_last());
            assert(Self::map_of(t) =~= Self::map_of(s).insert(s[i].0, v));
        }
    }

    /// Insert or replace the value at `k`.
    pub fn insert(&mut self, k: K, v: V)
        requires
            old(self).wf(),
        ensures
            final(self).wf(),
            final(self)@ == old(self)@.insert(k, v),
            old(self)@.contains_key(k) ==> final(self).entries_seq().len() == old(
                self).entries_seq().len(),
            !old(self)@.contains_key(k) ==> final(self).entries_seq() == old(
                self).entries_seq().push((k, v)),
    {
        match self.find(&k) {
            Some(i) => {
                let ghost s = self.entries@;
                self.entries[i] = (k, v);
                proof {
                    assert(self.entries@ =~= s.update(i as int, (k, v)));
                    assert forall|p: int, q: int|
                        0 <= p < q < self.entries@.len() implies (#[trigger] self.entries@[p]).0 != (
                        #[trigger] self.entries@[q]).0 by {
                        assert(s[p].0 != s[q].0);
                    }
                    Self::lemma_map_of_update(s, i as int, v);
                }
            },
            None => {
                let ghost s = self.entries@;
                self.entries.push((k, v));
                proof {
                    assert(self.entries@.drop_last() =~= s);
                    assert forall|p: int, q: int|
                        0 <= p < q < self.entries@.len() implies (#[trigger] self.entries@[p]).0 != (
                        #[trigger] self.entries@[q]).0 by {
                        if q < s.len() {
                            assert(s[p].0 != s[q].0);
                        } else {
                            Self::lemma_map_of_props(s);
                        }
                    }
                }
            },
        }
    }

    /// Removing an entry removes its key from the map.
    proof fn lemma_map_of_remove(s: Seq<(K, V)>, i: int)
        requires
            forall|p: int, q: int|
                0 <= p < q < s.len() ==> (#[trigger] s[p]).0 != (#[trigger] s[q]).0,
            0 <= i < s.len(),
        ensures
            Self::map_of(s.remove(i)) == Self::map_of(s).remove(s[i].0),
        decreases s.len(),
    {
        if i == s.len() - 1 {
            assert(s.remove(i) =~= s.drop_last());
            Self::lemma_map_of_props(s.drop_last());
            assert(!Self::map_of(s.drop_last()).contains_key(s[i].0));
            assert(Self::map_of(s.remove(i)) =~= Self::map_of(s).remove(s[i].0));
        } else {
            Self::lemma_map_of_remove(s.drop_last(), i);
            assert(s.remove(i).drop_last() =~= s.drop_last().remove(i));
            assert(s.remove(i).last() == s.last());
            Self::lemma_map_of_props(s.drop_last());
            assert(Self::map_of(s.remove(i)) =~= Self::map_of(s).remove(s[i].0));
        }
    }

    pub fn remove(&mut self, k: &K) -> (r: Option<V>)
        requires
            old(self).wf(),
        ensures
            final(self).wf(),
            final(self)@ == old(self)@.remove(*k),
            match r {
                Some(v) => old(self)@.contains_key(*k) && v == old(self)@[*k] && final(
                    self).entries_seq().len() + 1 == old(self).entries_seq().len(),
                None => !old(self)@.contains_key(*k) && *final(self) == *old(self),
            },
    {
        match self.find(k) {
            Some(i) => {
                let ghost s = self.entries@;
                let (_, v) = self.entries.remove(i);
                proof {
                    assert(self.entries@ =~= s.remove(i as int));
                    assert forall|p: int, q: int|
                        0 <= p < q < self.entries@.len() implies (#[trigger] self.entries@[p]).0 != (
                        #[trigger] self.entries@[q]).0 by {
                        let p0 = if p < i { p } else { p + 1 };
                        let q0 = if q < i { q } else { q + 1 };
                        assert(s[p0].0 != s[q0].0);
                    }
                    Self::lemma_map_of_remove(s, i as int);
                }
                Some(v)
            },
            None => None,
        }
    }
}

} // verus!
