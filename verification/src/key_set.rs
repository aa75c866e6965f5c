//! The proving-key set: preprocessed key sizes indexed by supported
//! (input, output) arity.
//!
//! Keys are ordered by number of outputs first, inputs second: a wallet
//! can always merge inputs with another transaction, but nothing can
//! reduce the number of outputs a user asked for. A key itself is
//! opaque; what the wallet reads of it is its arity.

use vstd::prelude::*;

verus! {

/// The arity of one proving key.
#[derive(Clone, Copy, Debug, PartialEq, Eq, Structural)]
pub struct KeySize {
    pub num_inputs: u64,
    pub num_outputs: u64,
}

/// Order by outputs first, then inputs.
pub open spec fn key_lt(a: KeySize, b: KeySize) -> bool {
    a.num_outputs < b.num_outputs || (a.num_outputs == b.num_outputs && a.num_inputs
        < b.num_inputs)
}

pub open spec fn key_fits(k: KeySize, num_inputs: u64, num_outputs: u64) -> bool {
    k.num_inputs >= num_inputs && k.num_outputs >= num_outputs
}

pub struct KeySet {
    pub keys: Vec<KeySize>,
}

impl KeySet {
    /// Strictly ascending by (outputs, inputs), with arities that fit
    /// the machine.
    pub open spec fn wf(&self) -> bool {
        &&& forall|i: int, j: int|
            0 <= i < j < self.keys@.len() ==> key_lt(#[trigger] self.keys@[i], #[trigger] self.keys@[j])
        &&& forall|i: int|
            0 <= i < self.keys@.len() ==> (#[trigger] self.keys@[i]).num_outputs <= usize::MAX
                && self.keys@[i].num_inputs <= usize::MAX
    }

    pub open spec fn has_fit(&self, num_inputs: u64, num_outputs: u64) -> bool {
        exists|i: int| 0 <= i < self.keys@.len() && key_fits(#[trigger] self.keys@[i], num_inputs, num_outputs)
    }

    /// The largest output arity any key supports (0 if there are none).
    pub open spec fn max_outputs_spec(&self) -> u64
        decreases self.keys@.len(),
    {
        Self::seq_max_outputs(self.keys@)
    }

    pub open spec fn seq_max_outputs(s: Seq<KeySize>) -> u64
        decreases s.len(),
    {
        if s.len() == 0 {
            0
        } else if s.last().num_outputs >= Self::seq_max_outputs(s.drop_last()) {
            s.last().num_outputs
        } else {
            Self::seq_max_outputs(s.drop_last())
        }
    }

    /// The largest input arity among keys that support `num_outputs`
    /// outputs (0 if there are none).
    pub open spec fn max_inputs_for_spec(&self, num_outputs: u64) -> u64 {
        Self::seq_max_inputs_for(self.keys@, num_outputs)
    }

    pub open spec fn seq_max_inputs_for(s: Seq<KeySize>, num_outputs: u64) -> u64
        decreases s.len(),
    {
        if s.len() == 0 {
            0
        } else if s.last().num_outputs >= num_outputs && s.last().num_inputs
            >= Self::seq_max_inputs_for(s.drop_last(), num_outputs) {
            s.last().num_inputs
        } else {
            Self::seq_max_inputs_for(s.drop_last(), num_outputs)
        }
    }


    /// A positive input maximum is witnessed by an actual key.
    pub proof fn lemma_max_inputs_witness(s: Seq<KeySize>, num_outputs: u64)
        ensures
            Self::seq_max_inputs_for(s, num_outputs) > 0 ==> exists|i: int|
                0 <= i < s.len() && (#[trigger] s[i]).num_outputs >= num_outputs
                    && s[i].num_inputs == Self::seq_max_inputs_for(s, num_outputs),
        decreases s.len(),
    {
        if s.len() > 0 {
            Self::lemma_max_inputs_witness(s.drop_last(), num_outputs);
            if Self::seq_max_inputs_for(s, num_outputs) > 0 {
                if s.last().num_outputs >= num_outputs && s.last().num_inputs
                    >= Self::seq_max_inputs_for(s.drop_last(), num_outputs) {
                    assert(s[s.len() - 1] == s.last());
                } else {
                    let i = choose|i: int|
                        0 <= i < s.drop_last().len() && (#[trigger] s.drop_last()[i]).num_outputs
                            >= num_outputs && s.drop_last()[i].num_inputs
                            == Self::seq_max_inputs_for(s.drop_last(), num_outputs);
                    assert(s[i] == s.drop_last()[i]);
                }
            }
        }
    }

    /// The output maximum never exceeds any bound all keys obey.
    pub proof fn lemma_max_outputs_bound(s: Seq<KeySize>, bound: u64)
        requires
            forall|i: int| 0 <= i < s.len() ==> (#[trigger] s[i]).num_outputs <= bound,
        ensures
            Self::seq_max_outputs(s) <= bound,
        decreases s.len(),
    {
        if s.len() > 0 {
            assert(forall|i: int|
                0 <= i < s.drop_last().len() ==> (#[trigger] s.drop_last()[i]).num_outputs
                    <= bound);
            Self::lemma_max_outputs_bound(s.drop_last(), bound);
            assert(s[s.len() - 1] == s.last());
        }
    }

    /// The smallest key (by outputs, then inputs) that fits the wanted
    /// arity; on failure, the maximum arities for diagnosis.
    pub fn best_fit_key(&self, num_inputs: u64, num_outputs: u64) -> (r: Result<
        KeySize,
        (u64, u64),
    >)
        requires
            self.wf(),
        ensures
            match r {
                Ok(k) => self.has_fit(num_inputs, num_outputs) && fits_minimally(
                    *self,
                    k,
                    num_inputs,
                    num_outputs,
                ) && k == chosen_key(*self, num_inputs, num_outputs),
                Err(m) => !self.has_fit(num_inputs, num_outputs) && m.0
                    == self.max_inputs_for_spec(num_outputs) && m.1 == self.max_outputs_spec(),
            },
    {
        let ghost s = self.keys@;
        let n = self.keys.len();
        let mut max_outputs: u64 = 0;
        let mut max_inputs: u64 = 0;
        let mut i: usize = 0;
        while i < n
            invariant
                n == s.len(),
                self.keys@ == s,
                self.wf(),
                i <= n,
                forall|j: int|
                    0 <= j < i ==> !key_fits(#[trigger] s[j], num_inputs, num_outputs),
                max_outputs == Self::seq_max_outputs(s.subrange(0, i as int)),
                max_inputs == Self::seq_max_inputs_for(s.subrange(0, i as int), num_outputs),
            decreases n - i,
        {
            let k = self.keys[i];
            let ghost pre = s.subrange(0, i as int);
            if k.num_inputs >= num_inputs && k.num_outputs >= num_outputs {
                proof {
                    assert(s[i as int] == k);
                    assert(key_fits(s[i as int], num_inputs, num_outputs));
                    assert forall|j: int|
                        0 <= j < s.len() && key_fits(#[trigger] s[j], num_inputs, num_outputs)
                        implies (k == s[j] || key_lt(k, s[j])) by {
                        if j < i {
                            assert(!key_fits(s[j], num_inputs, num_outputs));
                        } else if j > i {
                            assert(key_lt(s[i as int], s[j]));
                        }
                    }
                    assert(fits_minimally(*self, k, num_inputs, num_outputs));
                    lemma_chosen_key_unique(*self, k, num_inputs, num_outputs);
                }
                return Ok(k);
            }
            if k.num_outputs >= max_outputs {
                max_outputs = k.num_outputs;
            }
            if k.num_outputs >= num_outputs && k.num_inputs >= max_inputs {
                max_inputs = k.num_inputs;
            }
            i += 1;
            proof {
                let cur = s.subrange(0, i as int);
                assert(cur.drop_last() =~= pre);
                assert(cur.last() == s[i - 1]);
            }
        }
        proof {
            assert(s.subrange(0, n as int) =~= s);
        }
        Err((max_inputs, max_outputs))
    }
}


/// Is `k` a key of the set, fitting the arity, and least among the
/// fitting keys in the (outputs, inputs) order?
pub open spec fn fits_minimally(ks: KeySet, k: KeySize, num_inputs: u64, num_outputs: u64) -> bool {
    &&& exists|i: int| 0 <= i < ks.keys@.len() && #[trigger] ks.keys@[i] == k
    &&& key_fits(k, num_inputs, num_outputs)
    &&& forall|i: int|
        0 <= i < ks.keys@.len() && key_fits(#[trigger] ks.keys@[i], num_inputs, num_outputs) ==> (k
            == ks.keys@[i] || key_lt(k, ks.keys@[i]))
}

/// The key a successful selection returns: the least fitting one.
pub open spec fn chosen_key(ks: KeySet, num_inputs: u64, num_outputs: u64) -> KeySize {
    choose|k: KeySize| fits_minimally(ks, k, num_inputs, num_outputs)
}

/// At most one key fits minimally.
pub proof fn lemma_chosen_key_unique(ks: KeySet, k: KeySize, num_inputs: u64, num_outputs: u64)
    requires
        fits_minimally(ks, k, num_inputs, num_outputs),
    ensures
        chosen_key(ks, num_inputs, num_outputs) == k,
{
    let c = chosen_key(ks, num_inputs, num_outputs);
    assert(fits_minimally(ks, c, num_inputs, num_outputs));
    let i = choose|i: int| 0 <= i < ks.keys@.len() && #[trigger] ks.keys@[i] == c;
    let j = choose|j: int| 0 <= j < ks.keys@.len() && #[trigger] ks.keys@[j] == k;
    assert(c == ks.keys@[j] || key_lt(c, ks.keys@[j]));
    assert(k == ks.keys@[i] || key_lt(k, ks.keys@[i]));
}

/// The wallet's proving keys: transfer and freeze sets, and the single
/// fixed-arity mint key.
pub struct ProverKeySet {
    pub xfr: KeySet,
    pub mint: KeySize,
    pub freeze: KeySet,
}

impl ProverKeySet {
    pub open spec fn wf(&self) -> bool {
        self.xfr.wf() && self.freeze.wf()
    }
}

} // verus!
