//! Fitness scores and selection counts of the resource states.

use std::collections::HashMap;
use vstd::prelude::*;

verus! {

broadcast use vstd::std_specs::hash::group_hash_axioms;

/// For each resource state its votes and its visits, and the number of
/// visits made in all. Votes are written by whoever scores the states; a
/// selection only counts visits.
pub struct VoteData {
    /// State index to `(votes, visits)`.
    pub votes_and_visits: HashMap<usize, (usize, usize)>,
    /// Visits counted over all states.
    pub visits_total: usize,
}

impl VoteData {
    /// Vote data without any state.
    pub fn new() -> (v: VoteData)
        ensures
            v.votes_and_visits@ == Map::<usize, (usize, usize)>::empty(),
            v.visits_total == 0,
    {
        VoteData { votes_and_visits: HashMap::new(), visits_total: 0 }
    }

    /// Whether one more visit can be counted for any state without leaving
    /// the range of the counters.
    pub open spec fn has_room(&self) -> bool {
        &&& self.visits_total < usize::MAX
        &&& forall|idx: usize| #[trigger]
            self.votes_and_visits@.contains_key(idx) ==> self.votes_and_visits@[idx].1
                < usize::MAX
    }

    /// The entries after one visit of `idx` is counted.
    pub open spec fn visited(self, idx: usize) -> Map<usize, (usize, usize)> {
        self.votes_and_visits@.insert(
            idx,
            (self.votes_and_visits@[idx].0, (self.votes_and_visits@[idx].1 + 1) as usize),
        )
    }

    /// Counts one visit of state `idx`: its visits and the total go up by
    /// one, and nothing else changes.
    pub fn count_visit(&mut self, idx: usize)
        requires
            old(self).votes_and_visits@.contains_key(idx),
            old(self).has_room(),
        ensures
            final(self).votes_and_visits@ == old(self).visited(idx),
            final(self).visits_total == old(self).visits_total + 1,
    {
        let entry = self.votes_and_visits.get(&idx);
        match entry {
            Some(pair) => {
                let votes: usize = pair.0;
                let visits: usize = pair.1;
                self.votes_and_visits.insert(idx, (votes, visits + 1));
                self.visits_total = self.visits_total + 1;
            },
            None => {
                assert(false);
            },
        }
    }
}

} // verus!
