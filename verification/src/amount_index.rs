//! The per-(asset, owner, freeze status) index of records: `(amount, uid)`
//! pairs kept in strictly ascending order, so that a worst-fit allocator
//! can walk them from the back in descending size order.

use vstd::prelude::*;

verus! {

/// Strict lexicographic order on `(amount, uid)` pairs.
pub open spec fn pair_lt(a: (u64, u64), b: (u64, u64)) -> bool {
    a.0 < b.0 || (a.0 == b.0 && a.1 < b.1)
}

pub struct AmountIndex {
    pairs: Vec<(u64, u64)>,
}

impl AmountIndex {
    pub closed spec fn view(&self) -> Seq<(u64, u64)> {
        self.pairs@
    }

    /// Strictly sorted, hence duplicate-free.
    pub open spec fn wf(&self) -> bool {
        forall|i: int, j: int|
            0 <= i < j < self@.len() ==> pair_lt(#[trigger] self@[i], #[trigger] self@[j])
    }

    pub open spec fn contains_pair(&self, p: (u64, u64)) -> bool {
        exists|i: int| 0 <= i < self@.len() && self@[i] == p
    }

    pub fn new() -> (r: Self)
        ensures
            r.wf(),
            r@.len() == 0,
    {
        AmountIndex { pairs: Vec::new() }
    }

    pub fn len(&self) -> (r: usize)
        ensures
            r == self@.len(),
    {
        self.pairs.len()
    }

    pub fn at(&self, i: usize) -> (r: (u64, u64))
        requires
            i < self@.len(),
        ensures
            r == self@[i as int],
    {
        self.pairs[i]
    }

    /// Insert a pair that is not yet present.
    pub fn insert_pair(&mut self, p: (u64, u64))
        requires
            old(self).wf(),
            !old(self).contains_pair(p),
        ensures
            final(self).wf(),
            final(self)@.len() == old(self)@.len() + 1,
            forall|q: (u64, u64)|
                #[trigger] final(self).contains_pair(q) <==> (old(self).contains_pair(q) || q == p),
    {
        let ghost s = self.pairs@;
        proof {
            assert forall|i: int| 0 <= i < s.len() implies #[trigger] s[i] != p by {
                assert(self@[i] == s[i]);
            }
            assert forall|i: int, j: int| 0 <= i < j < s.len() implies pair_lt(
                #[trigger] s[i],
                #[trigger] s[j],
            ) by {
                assert(pair_lt(self@[i], self@[j]));
            }
        }
        let n = self.pairs.len();
        let mut idx: usize = 0;
        let mut stop = false;
        while idx < n && !stop
            invariant
                n == s.len(),
                self.pairs@ == s,
                old(self)@ == s,
                idx <= n,
                forall|i: int| 0 <= i < s.len() ==> #[trigger] s[i] != p,
                forall|i: int, j: int|
                    0 <= i < j < s.len() ==> pair_lt(#[trigger] s[i], #[trigger] s[j]),
                forall|j: int| 0 <= j < idx ==> pair_lt(#[trigger] s[j], p),
                stop ==> idx < n && pair_lt(p, s[idx as int]),
            decreases n - idx + (if stop { 0int } else { 1int }),
        {
            let q = self.pairs[idx];
            if p.0 < q.0 || (p.0 == q.0 && p.1 < q.1) {
                proof {
                    assert(q == s[idx as int]);
                }
                stop = true;
            } else {
                proof {
                    assert(q == s[idx as int]);
                    assert(pair_lt(s[idx as int], p));
                }
                idx += 1;
            }
        }
        proof {
            assert forall|j: int| idx <= j < n implies pair_lt(p, #[trigger] s[j]) by {
                assert(pair_lt(p, s[idx as int]));
                if j > idx {
                    assert(pair_lt(s[idx as int], s[j]));
                }
            }
        }
        self.pairs.insert(idx, p);
        proof {
            let t = self.pairs@;
            assert(t == s.insert(idx as int, p));
            assert forall|i: int, j: int| 0 <= i < j < t.len() implies pair_lt(
                #[trigger] t[i],
                #[trigger] t[j],
            ) by {
                if i < idx && j < idx {
                    assert(t[i] == s[i] && t[j] == s[j]);
                } else if i < idx && j == idx {
                    assert(t[i] == s[i]);
                } else if i < idx && j > idx {
                    assert(t[i] == s[i] && t[j] == s[j - 1]);
                    assert(pair_lt(s[i], p));
                    assert(pair_lt(p, s[j - 1]));
                } else if i == idx {
                    assert(t[j] == s[j - 1]);
                } else {
                    assert(t[i] == s[i - 1] && t[j] == s[j - 1]);
                }
            }
            assert forall|q: (u64, u64)|
                #[trigger] self.contains_pair(q) <==> (Self::seq_contains(s, q) || q == p) by {
                if self.contains_pair(q) {
                    let i = choose|i: int| 0 <= i < t.len() && t[i] == q;
                    if i < idx {
                        assert(s[i] == q);
                    } else if i == idx {
                    } else {
                        assert(s[i - 1] == q);
                    }
                }
                if Self::seq_contains(s, q) {
                    let i = choose|i: int| 0 <= i < s.len() && s[i] == q;
                    if i < idx {
                        assert(t[i] == q);
                    } else {
                        assert(t[i + 1] == q);
                    }
                }
                if q == p {
                    assert(t[idx as int] == q);
                }
            }
            assert forall|q: (u64, u64)| #[trigger] Self::seq_contains(s, q) implies old(
                self,
            ).contains_pair(q) by {
                let i = choose|i: int| 0 <= i < s.len() && s[i] == q;
                assert(old(self)@[i] == q);
            }
            assert forall|q: (u64, u64)| #[trigger] old(self).contains_pair(q) implies Self::seq_contains(
                s,
                q,
            ) by {
                let i = choose|i: int| 0 <= i < old(self)@.len() && old(self)@[i] == q;
                assert(s[i] == q);
            }
        }
    }

    pub open spec fn seq_contains(s: Seq<(u64, u64)>, p: (u64, u64)) -> bool {
        exists|i: int| 0 <= i < s.len() && s[i] == p
    }

    /// Remove a pair if present; report whether it was.
    pub fn remove_pair(&mut self, p: (u64, u64)) -> (r: bool)
        requires
            old(self).wf(),
        ensures
            final(self).wf(),
            r == old(self).contains_pair(p),
            r ==> final(self)@.len() + 1 == old(self)@.len(),
            !r ==> *final(self) == *old(self),
            forall|q: (u64, u64)|
                #[trigger] final(self).contains_pair(q) <==> (old(self).contains_pair(q) && q != p),
    {
        let ghost s = self.pairs@;
        proof {
            assert forall|i: int, j: int| 0 <= i < j < s.len() implies pair_lt(
                #[trigger] s[i],
                #[trigger] s[j],
            ) by {
                assert(pair_lt(self@[i], self@[j]));
            }
        }
        let n = self.pairs.len();
        let mut idx: usize = 0;
        while idx < n
            invariant
                n == s.len(),
                self.pairs@ == s,
                old(self)@ == s,
                *self == *old(self),
                idx <= n,
                forall|i: int, j: int|
                    0 <= i < j < s.len() ==> pair_lt(#[trigger] s[i], #[trigger] s[j]),
                forall|j: int| 0 <= j < idx ==> #[trigger] s[j] != p,
            decreases n - idx,
        {
            let q = self.pairs[idx];
            if q.0 == p.0 && q.1 == p.1 {
                proof {
                    assert(s[idx as int] == p);
                }
                self.pairs.remove(idx);
                proof {
                    let t = self.pairs@;
                    assert(t == s.remove(idx as int));
                    assert forall|i: int, j: int| 0 <= i < j < t.len() implies pair_lt(
                        #[trigger] t[i],
                        #[trigger] t[j],
                    ) by {
                        let i0 = if i < idx { i } else { i + 1 };
                        let j0 = if j < idx { j } else { j + 1 };
                        assert(pair_lt(s[i0], s[j0]));
                        assert(t[i] == s[i0] && t[j] == s[j0]);
                    }
                    assert(old(self).contains_pair(p)) by {
                        assert(old(self)@[idx as int] == p);
                    }
                    assert forall|q2: (u64, u64)|
                        #[trigger] self.contains_pair(q2) <==> (old(self).contains_pair(q2) && q2
                            != p) by {
                        if self.contains_pair(q2) {
                            let i = choose|i: int| 0 <= i < t.len() && t[i] == q2;
                            let i0 = if i < idx { i } else { i + 1 };
                            assert(s[i0] == q2);
                            assert(old(self)@[i0] == q2);
                            if q2 == p {
                                if i0 < idx {
                                    assert(pair_lt(s[i0], s[idx as int]));
                                } else {
                                    assert(pair_lt(s[idx as int], s[i0]));
                                }
                            }
                        }
                        if old(self).contains_pair(q2) && q2 != p {
                            let i = choose|i: int|
                                0 <= i < old(self)@.len() && old(self)@[i] == q2;
                            assert(s[i] == q2);
                            if i < idx {
                                assert(t[i] == q2);
                            } else {
                                assert(i != idx);
                                assert(t[i - 1] == q2);
                            }
                        }
                    }
                }
                return true;
            }
            proof {
                assert(q == s[idx as int]);
            }
            idx += 1;
        }
        proof {
            assert(!old(self).contains_pair(p)) by {
                if old(self).contains_pair(p) {
                    let i = choose|i: int| 0 <= i < old(self)@.len() && old(self)@[i] == p;
                    assert(s[i] == p);
                }
            }
        }
        false
    }
}

} // verus!
