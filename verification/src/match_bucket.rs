//! A bucket that keeps, for one hash key, the records of each side that
//! landed on it.

use crate::banding::lemma_take_next;
use crate::concurrent::{pairs_insert, pairs_new, pairs_of};
use dashmap::DashSet;
use vstd::prelude::*;

verus! {

/// The record indices of the two sides that share one hash key.
pub struct MatchBucket {
    pub a: Vec<usize>,
    pub b: Vec<usize>,
}

impl MatchBucket {
    /// The pairs that the bucket stands for: every record of the first side
    /// with every record of the second.
    pub open spec fn pairs(&self) -> Set<(usize, usize)> {
        Set::new(|p: (usize, usize)| self.a@.contains(p.0) && self.b@.contains(p.1))
    }

    /// An empty bucket.
    pub fn new() -> (bucket: Self)
        ensures
            bucket.a@ == Seq::<usize>::empty(),
            bucket.b@ == Seq::<usize>::empty(),
    {
        MatchBucket { a: Vec::new(), b: Vec::new() }
    }

    /// Every pair of a first-side record with a second-side record.
    pub fn get_pairs(&self) -> (out_set: DashSet<(usize, usize)>)
        ensures
            pairs_of(out_set) == self.pairs(),
    {
        let mut out_set = pairs_new();
        let mut i: usize = 0;
        while i < self.a.len()
            invariant
                i <= self.a.len(),
                pairs_of(out_set) == Set::new(
                    |p: (usize, usize)| self.a@.take(i as int).contains(p.0) && self.b@.contains(p.1),
                ),
            decreases self.a.len() - i,
        {
            let mut j: usize = 0;
            while j < self.b.len()
                invariant
                    i < self.a.len(),
                    j <= self.b.len(),
                    pairs_of(out_set) == Set::new(
                        |p: (usize, usize)|
                            (self.a@.take(i as int).contains(p.0) && self.b@.contains(p.1)) || (p.0
                                == self.a@[i as int] && self.b@.take(j as int).contains(p.1)),
                    ),
                decreases self.b.len() - j,
            {
                pairs_insert(&mut out_set, (self.a[i], self.b[j]));
                proof {
                    lemma_take_next(self.b@, j as int);
                }
                j += 1;
            }
            proof {
                assert(self.b@.take(j as int) == self.b@);
                lemma_take_next(self.a@, i as int);
            }
            i += 1;
        }
        proof {
            assert(self.a@.take(i as int) == self.a@);
        }
        out_set
    }

    /// Whether both sides have a record in the bucket.
    pub fn contains_match(&self) -> (found: bool)
        ensures
            found == (self.a@.len() >= 1 && self.b@.len() >= 1),
    {
        self.a.len() >= 1 && self.b.len() >= 1
    }
}

} // verus!
