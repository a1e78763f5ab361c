//! Decimal mode's accumulator: the record of the values already emitted
//! in one run, used to test a rounded candidate for distinctness.
//!
//! A rounded decimal-mode value at precision `p` is carried as the scaled
//! integer `k` with value `k / 10^p` (see the fixed-point module), so
//! equality of rounded values is equality of their scaled integers. The
//! binary draws and rounds candidates and offers each scaled value here;
//! a rejected candidate is simply drawn again.

use vstd::prelude::*;
use crate::pairwise_distinct;

verus! {

/// True when the scaled value does not occur in the list of already
/// generated scaled values.
pub fn check_scaled_for_uniqueness(num: &i64, array: &Vec<i64>) -> (r: bool)
    ensures
        r == !array@.contains(*num),
{
    let mut i: usize = 0;
    while i < array.len()
        invariant
            i <= array@.len(),
            forall|k: int| 0 <= k < i ==> array@[k] != *num,
        decreases array@.len() - i,
    {
        if array[i] == *num {
            proof {
                assert(array@.contains(*num));
            }
            return false;
        }
        i += 1;
    }
    true
}

/// The values emitted so far in one decimal-mode run, append-only, with
/// the run's distinctness demand.
pub struct Accumulator {
    values: Vec<i64>,
    unique: bool,
}

impl Accumulator {
    /// The scaled values emitted so far, in emission order.
    pub closed spec fn emitted(self) -> Seq<i64> {
        self.values@
    }

    /// Whether this run demands pairwise distinct values.
    pub closed spec fn is_unique(self) -> bool {
        self.unique
    }

    /// Well-formed: under the distinctness demand no two emitted values
    /// are equal.
    pub open spec fn wf(self) -> bool {
        self.is_unique() ==> pairwise_distinct(self.emitted())
    }

    /// An empty accumulator for a fresh run.
    pub fn new(unique: bool) -> (g: Self)
        ensures
            g.emitted() == Seq::<i64>::empty(),
            g.is_unique() == unique,
            g.wf(),
    {
        Accumulator { values: Vec::new(), unique }
    }

    /// Offer a rounded candidate: it is turned away exactly when the run
    /// demands distinct values and an equal value was already emitted;
    /// otherwise it is recorded as emitted.
    pub fn offer(&mut self, scaled: i64) -> (accepted: bool)
        requires
            old(self).wf(),
        ensures
            final(self).wf(),
            final(self).is_unique() == old(self).is_unique(),
            accepted == !(old(self).is_unique() && old(self).emitted().contains(scaled)),
            accepted ==> final(self).emitted() == old(self).emitted().push(scaled),
            !accepted ==> final(self).emitted() == old(self).emitted(),
    {
        if self.unique {
            if !check_scaled_for_uniqueness(&scaled, &self.values) {
                return false;
            }
        }
        let ghost pre = self.values@;
        self.values.push(scaled);
        proof {
            if self.unique {
                assert forall|a: int, b: int|
                    0 <= a < b < self.values@.len() implies self.values@[a] != self.values@[b] by {
                    if b < pre.len() {
                        assert(self.values@[a] == pre[a] && self.values@[b] == pre[b]);
                    } else {
                        assert(self.values@[b] == scaled && self.values@[a] == pre[a]);
                        if pre[a] == scaled {
                            assert(pre.contains(scaled));
                        }
                    }
                }
            }
        }
        true
    }

    /// How many values have been emitted so far.
    pub fn len(&self) -> (n: usize)
        ensures
            n == self.emitted().len(),
    {
        self.values.len()
    }
}

/// Distinctness law: in a well-formed run that demands distinct values,
/// no two emitted values are equal.
pub proof fn lemma_unique_emitted_distinct(g: Accumulator)
    requires
        g.wf(),
        g.is_unique(),
    ensures
        pairwise_distinct(g.emitted()),
{
}

} // verus!
