//! The two scheduling policies that keep the ledger up to date.
//!
//! Each wraps an inner policy, which the caller drives: the methods here do
//! the ledger's part of an admission, a removal or a selection, and take or
//! hand back what the inner policy is asked for.

use std::collections::HashSet;
use vstd::prelude::*;
use crate::draw::draw_below;
use crate::ledger::{
    lemma_add_state_keeps_mirror, lemma_add_state_keeps_unavailable_sound,
    lemma_remove_state_keeps_mirror, lemma_remove_state_keeps_unavailable_sound, Ledger,
    MoveSchedulerMeta,
};
use crate::sampling::{is_pick, pick_weighted, DRAW_STEPS};
use crate::sets::{covers, members, set_of};
use crate::votes::VoteData;

verus! {

broadcast use vstd::std_specs::hash::group_hash_axioms;

/// Why an operation on the ledger failed.
#[derive(Clone, Copy, Debug, PartialEq, Eq)]
pub enum SchedulerError {
    /// An index was used that has no record.
    MissingEntity,
    /// No resource state supplies every type currently required.
    StarvedSelection,
}

/// What a selection among the resource states came to.
#[derive(Clone, Copy, Debug, PartialEq, Eq)]
pub enum Selection {
    /// Nothing is required: the choice is the inner policy's, unfiltered.
    Inner,
    /// The state picked among those that supply every required type.
    State(usize),
}

/// Whether `c` lists the eligible states with their votes: each eligible
/// state once, paired with its votes, and no other state.
pub open spec fn is_roster(
    l: Ledger,
    votes: Map<usize, (usize, usize)>,
    c: Seq<(usize, usize)>,
) -> bool {
    &&& forall|a: int, b: int| 0 <= a < b < c.len() ==> c[a].0 != c[b].0
    &&& forall|k: int|
        0 <= k < c.len() ==> l.eligible(#[trigger] c[k].0) && votes.contains_key(c[k].0) && c[k].1
            == votes[c[k].0].0
    &&& forall|idx: usize| #[trigger]
        l.eligible(idx) ==> exists|k: int| 0 <= k < c.len() && c[k].0 == idx
}

/// Whether a selection on ledger `l` with the draw `draw` may end in result
/// `r`, taking the vote data from `before` to `after`.
///
/// With nothing required the choice goes to the inner policy and nothing is
/// counted. With no eligible state the selection is starved. Otherwise the
/// eligible states are walked in some order, the draw picks one of them by
/// its votes, and one visit of it is counted.
pub open spec fn selection_outcome(
    l: Ledger,
    before: VoteData,
    after: VoteData,
    r: Result<Selection, SchedulerError>,
    draw: int,
) -> bool {
    let unchanged = after.votes_and_visits@ == before.votes_and_visits@ && after.visits_total
        == before.visits_total;
    if l.current_deps.is_empty() {
        r == Ok::<Selection, SchedulerError>(Selection::Inner) && unchanged
    } else if forall|idx: usize| !l.eligible(idx) {
        r == Err::<Selection, SchedulerError>(SchedulerError::StarvedSelection) && unchanged
    } else if exists|idx: usize| l.eligible(idx) && !before.votes_and_visits@.contains_key(idx) {
        r == Err::<Selection, SchedulerError>(SchedulerError::MissingEntity) && unchanged
    } else {
        exists|c: Seq<(usize, usize)>, k: int|
            {
                &&& is_roster(l, before.votes_and_visits@, c)
                &&& #[trigger] is_pick(c, draw, k)
                &&& r == Ok::<Selection, SchedulerError>(Selection::State(c[k].0))
                &&& after.votes_and_visits@ == before.visited(c[k].0)
                &&& after.visits_total == before.visits_total + 1
            }
    }
}

/// With nothing required, a selection hands the choice to the inner policy
/// unfiltered and counts no visit.
pub proof fn lemma_unconstrained_selection(
    l: Ledger,
    before: VoteData,
    after: VoteData,
    r: Result<Selection, SchedulerError>,
    draw: int,
)
    requires
        selection_outcome(l, before, after, r, draw),
        l.current_deps.is_empty(),
    ensures
        r == Ok::<Selection, SchedulerError>(Selection::Inner),
        after.votes_and_visits@ == before.votes_and_visits@,
        after.visits_total == before.visits_total,
{
}

/// A selection that is not handed to the inner policy returns only a state
/// that supplies every required type.
pub proof fn lemma_selected_state_is_eligible(
    l: Ledger,
    before: VoteData,
    after: VoteData,
    r: Result<Selection, SchedulerError>,
    draw: int,
    idx: usize,
)
    requires
        selection_outcome(l, before, after, r, draw),
        r == Ok::<Selection, SchedulerError>(Selection::State(idx)),
    ensures
        !l.current_deps.is_empty(),
        l.eligible(idx),
        l.current_deps.subset_of(l.types_of(idx)),
{
}

/// A selection of state `idx` raises the visits of `idx` and the total by
/// exactly one, and leaves the votes of `idx` and every other entry as they
/// were.
pub proof fn lemma_selection_counts_one_visit(
    l: Ledger,
    before: VoteData,
    after: VoteData,
    r: Result<Selection, SchedulerError>,
    draw: int,
    idx: usize,
)
    requires
        selection_outcome(l, before, after, r, draw),
        r == Ok::<Selection, SchedulerError>(Selection::State(idx)),
        before.has_room(),
    ensures
        before.votes_and_visits@.contains_key(idx),
        after.votes_and_visits@.contains_key(idx),
        after.votes_and_visits@[idx].0 == before.votes_and_visits@[idx].0,
        after.votes_and_visits@[idx].1 == before.votes_and_visits@[idx].1 + 1,
        after.visits_total == before.visits_total + 1,
        forall|other: usize|
            other != idx ==> (after.votes_and_visits@.contains_key(other)
                <==> before.votes_and_visits@.contains_key(other)),
        forall|other: usize|
            other != idx && before.votes_and_visits@.contains_key(other)
                ==> after.votes_and_visits@[other] == before.votes_and_visits@[other],
{
}

/// Selection policy over test artifacts, wrapped round an inner policy.
pub struct MoveTestcaseScheduler<SC> {
    pub inner: SC,
}

/// Selection policy over resource states, wrapped round an inner policy.
pub struct MoveVMStateScheduler<SC> {
    pub inner: SC,
}

impl<SC> MoveTestcaseScheduler<SC> {
    /// Records the requirement set of artifact `idx`, given as a list of
    /// types. The admission is then the inner policy's to handle.
    pub fn on_add(&self, meta: &mut MoveSchedulerMeta, idx: usize, deps: &Vec<u64>)
        ensures
            final(meta)@ == old(meta)@.record_artifact(idx, deps@.to_set()),
    {
        meta.testcase_to_deps.insert(idx, set_of(deps));
    }

    /// Makes `chosen`, the artifact that the inner policy selected, the
    /// current one, and publishes its requirement set. An artifact that was
    /// never admitted is refused and the ledger stays as it was.
    pub fn next(&self, meta: &mut MoveSchedulerMeta, chosen: usize) -> (r: Result<
        usize,
        SchedulerError,
    >)
        ensures
            old(meta)@.required.contains_key(chosen) ==> r == Ok::<usize, SchedulerError>(chosen)
                && final(meta)@ == old(meta)@.select_artifact(chosen)
                && final(meta)@.current_recorded(),
            !old(meta)@.required.contains_key(chosen) ==> r == Err::<usize, SchedulerError>(
                SchedulerError::MissingEntity,
            ) && final(meta)@ == old(meta)@,
    {
        match meta.testcase_to_deps.get(chosen) {
            Some(deps) => {
                let list = members(deps);
                meta.current_deps = set_of(&list);
                meta.current_idx = chosen;
                Ok(chosen)
            },
            None => Err(SchedulerError::MissingEntity),
        }
    }
}

impl<SC> MoveVMStateScheduler<SC> {
    /// Admits state `idx` as a supplier of each type in `provided`: the state
    /// is listed under each of them, none of them stays unavailable, and the
    /// types become the record of the state. The admission is then the inner
    /// policy's to handle.
    ///
    /// The indexes stay mirrored where the state had no record, or none but
    /// of types that are in `provided` again.
    pub fn on_add(&self, meta: &mut MoveSchedulerMeta, idx: usize, provided: &Vec<u64>)
        ensures
            final(meta)@ == old(meta)@.add_state(idx, provided@.to_set()),
            old(meta)@.inverse_consistent() && old(meta)@.types_of(idx).subset_of(provided@.to_set())
                ==> final(meta)@.inverse_consistent(),
            old(meta)@.unavailable_sound() ==> final(meta)@.unavailable_sound(),
    {
        let ghost before = meta@;
        let mut i: usize = 0;
        while i < provided.len()
            invariant
                i <= provided@.len(),
                meta.current_idx == before.current_idx,
                meta@.current_deps == before.current_deps,
                meta@.required == before.required,
                meta@.provided == before.provided,
                meta@.providers == before.providers_with(idx, provided@.take(i as int).to_set()),
                meta@.unavailable == before.unavailable.difference(
                    provided@.take(i as int).to_set(),
                ),
            decreases provided@.len() - i,
        {
            let ty: u64 = provided[i];
            let ghost seen = provided@.take(i as int).to_set();
            proof {
                provided@.lemma_take_succ_push(i as int);
                provided@.take(i as int).lemma_push_to_set_commute(ty);
            }
            let mut states: HashSet<usize> = match meta.deps_state_idx.remove(ty) {
                Some(s) => s,
                None => HashSet::new(),
            };
            states.insert(idx);
            meta.deps_state_idx.insert(ty, states);
            meta.unavailable_types.remove(&ty);
            i = i + 1;
            assert(meta@.providers =~~= before.providers_with(idx, seen.insert(ty)));
            assert(meta@.unavailable =~= before.unavailable.difference(seen.insert(ty)));
        }
        assert(provided@.take(i as int) =~= provided@);
        meta.state_idx_to_deps.insert(idx, set_of(provided));
        proof {
            if before.inverse_consistent() && before.types_of(idx).subset_of(provided@.to_set()) {
                lemma_add_state_keeps_mirror(before, idx, provided@.to_set());
            }
            if before.unavailable_sound() {
                lemma_add_state_keeps_unavailable_sound(before, idx, provided@.to_set());
            }
        }
    }

    /// Removes state `idx`: it is struck from under each type it supplied,
    /// each such type that is left without a supplier becomes unavailable,
    /// and the record of the state goes. A state without a record is refused
    /// and the ledger stays as it was. The removal is then the inner policy's
    /// to handle, whether or not it succeeds there.
    ///
    /// Every type recorded for the state must have an entry in the type
    /// index, as it has where the indexes mirror each other.
    pub fn on_remove(&self, meta: &mut MoveSchedulerMeta, idx: usize) -> (r: Result<
        (),
        SchedulerError,
    >)
        requires
            old(meta)@.types_indexed(idx),
        ensures
            old(meta)@.inverse_consistent() ==> final(meta)@.inverse_consistent(),
            old(meta)@.unavailable_sound() ==> final(meta)@.unavailable_sound(),
            old(meta)@.provided.contains_key(idx) ==> r == Ok::<(), SchedulerError>(())
                && final(meta)@ == old(meta)@.remove_state(idx),
            !old(meta)@.provided.contains_key(idx) ==> r == Err::<(), SchedulerError>(
                SchedulerError::MissingEntity,
            ) && final(meta)@ == old(meta)@,
    {
        let ghost before = meta@;
        let types: Vec<u64> = match meta.state_idx_to_deps.remove(idx) {
            Some(s) => members(&s),
            None => {
                assert(meta@.provided =~= before.provided);
                return Err(SchedulerError::MissingEntity);
            },
        };
        let mut i: usize = 0;
        while i < types.len()
            invariant
                i <= types@.len(),
                before.types_indexed(idx),
                before.provided.contains_key(idx),
                types@.to_set() == before.provided[idx],
                meta.current_idx == before.current_idx,
                meta@.current_deps == before.current_deps,
                meta@.required == before.required,
                meta@.provided == before.provided.remove(idx),
                meta@.providers == before.providers_without(idx, types@.take(i as int).to_set()),
                meta@.unavailable == before.unavailable_without(
                    idx,
                    types@.take(i as int).to_set(),
                ),
            decreases types@.len() - i,
        {
            let ty: u64 = types[i];
            let ghost seen = types@.take(i as int).to_set();
            proof {
                types@.lemma_take_succ_push(i as int);
                types@.take(i as int).lemma_push_to_set_commute(ty);
                assert(types@.to_set().contains(ty));
                assert(before.types_of(idx).contains(ty));
                assert(before.providers.contains_key(ty));
            }
            match meta.deps_state_idx.remove(ty) {
                Some(s) => {
                    let mut states: HashSet<usize> = s;
                    states.remove(&idx);
                    let last: bool = states.is_empty();
                    proof {
                        if last {
                            assert forall|other: usize|
                                before.states_of(ty).contains(other) implies other == idx by {
                                if other != idx {
                                    assert(states@.contains(other));
                                }
                            }
                        } else {
                            let other = choose|other: usize| states@.contains(other);
                            assert(states@.contains(other));
                            assert(before.states_of(ty).contains(other) && other != idx);
                        }
                        assert(last == before.sole_provider(ty, idx));
                    }
                    meta.deps_state_idx.insert(ty, states);
                    if last {
                        meta.unavailable_types.insert(ty);
                    }
                },
                None => {
                    assert(false);
                },
            }
            i = i + 1;
            assert(meta@.providers =~~= before.providers_without(idx, seen.insert(ty)));
            assert(meta@.unavailable =~= before.unavailable_without(idx, seen.insert(ty)));
        }
        assert(types@.take(i as int) =~= types@);
        proof {
            if before.inverse_consistent() {
                lemma_remove_state_keeps_mirror(before, idx);
            }
            if before.unavailable_sound() {
                lemma_remove_state_keeps_unavailable_sound(before, idx);
            }
        }
        Ok(())
    }

    /// The states that supply every type currently required, each once, in
    /// the order in which the ledger's table is walked.
    pub fn eligible_states(&self, meta: &MoveSchedulerMeta) -> (r: Vec<usize>)
        ensures
            r@.no_duplicates(),
            forall|idx: usize| r@.contains(idx) <==> meta@.eligible(idx),
    {
        let need: Vec<u64> = members(&meta.current_deps);
        let keys: Vec<usize> = meta.state_idx_to_deps.indices();
        let mut found: Vec<usize> = Vec::new();
        let mut j: usize = 0;
        while j < keys.len()
            invariant
                j <= keys@.len(),
                keys@.no_duplicates(),
                need@.to_set() == meta@.current_deps,
                forall|i: usize| keys@.contains(i) <==> meta@.provided.contains_key(i),
                found@.no_duplicates(),
                forall|k: int|
                    0 <= k < found@.len() ==> meta@.eligible(#[trigger] found@[k]) && exists|p: int|
                        0 <= p < j && keys@[p] == found@[k],
                forall|p: int|
                    0 <= p < j && meta@.eligible(#[trigger] keys@[p]) ==> found@.contains(keys@[p]),
            decreases keys@.len() - j,
        {
            let idx: usize = keys[j];
            assert(keys@.contains(idx));
            let ghost prior = found@;
            match meta.state_idx_to_deps.get(idx) {
                Some(types) => {
                    if covers(types, &need) {
                        found.push(idx);
                        assert(forall|k: int| 0 <= k < prior.len() ==> found@[k] == prior[k]);
                        assert(found@[prior.len() as int] == idx);
                        assert forall|p: int|
                            0 <= p < j + 1 && meta@.eligible(
                                #[trigger] keys@[p],
                            ) implies found@.contains(keys@[p]) by {
                            if p < j {
                                let k = choose|k: int| 0 <= k < prior.len() && prior[k] == keys@[p];
                                assert(found@[k] == keys@[p]);
                            }
                        }
                    }
                },
                None => {},
            }
            j = j + 1;
        }
        assert forall|idx: usize| meta@.eligible(idx) implies found@.contains(idx) by {
            assert(keys@.contains(idx));
            let p = choose|p: int| 0 <= p < keys@.len() && keys@[p] == idx;
            assert(meta@.eligible(keys@[p]));
        }
        found
    }

    /// The eligible states paired with their votes, in the order of
    /// [`Self::eligible_states`]. Fails where there is no eligible state, or
    /// where one of them has no votes recorded.
    pub fn roster(&self, meta: &MoveSchedulerMeta, votes: &VoteData) -> (r: Result<
        Vec<(usize, usize)>,
        SchedulerError,
    >)
        ensures
            match r {
                Ok(c) => c@.len() > 0 && is_roster(meta@, votes.votes_and_visits@, c@),
                Err(SchedulerError::StarvedSelection) => forall|idx: usize| !meta@.eligible(idx),
                Err(SchedulerError::MissingEntity) => exists|idx: usize|
                    meta@.eligible(idx) && !votes.votes_and_visits@.contains_key(idx),
            },
    {
        let found: Vec<usize> = self.eligible_states(meta);
        if found.len() == 0 {
            assert forall|idx: usize| !meta@.eligible(idx) by {
                assert(!found@.contains(idx));
            }
            return Err(SchedulerError::StarvedSelection);
        }
        let mut list: Vec<(usize, usize)> = Vec::new();
        let mut k: usize = 0;
        while k < found.len()
            invariant
                k <= found@.len(),
                list@.len() == k,
                forall|idx: usize| found@.contains(idx) <==> meta@.eligible(idx),
                forall|m: int|
                    0 <= m < k ==> (#[trigger] list@[m]).0 == found@[m]
                        && votes.votes_and_visits@.contains_key(found@[m]) && list@[m].1
                        == votes.votes_and_visits@[found@[m]].0,
            decreases found@.len() - k,
        {
            let idx: usize = found[k];
            match votes.votes_and_visits.get(&idx) {
                Some(pair) => {
                    list.push((idx, pair.0));
                },
                None => {
                    assert(found@[k as int] == idx);
                    assert(found@.contains(idx));
                    assert(meta@.eligible(idx));
                    assert(!votes.votes_and_visits@.contains_key(idx));
                    return Err(SchedulerError::MissingEntity);
                },
            }
            k = k + 1;
        }
        assert forall|m: int| 0 <= m < list@.len() implies meta@.eligible(
            #[trigger] list@[m].0,
        ) by {
            assert(found@.contains(found@[m]));
        }
        assert forall|idx: usize| #[trigger] meta@.eligible(idx) implies exists|m: int|
            0 <= m < list@.len() && list@[m].0 == idx by {
            assert(found@.contains(idx));
            let m = choose|m: int| 0 <= m < found@.len() && found@[m] == idx;
            assert(list@[m].0 == idx);
        }
        Ok(list)
    }

    /// Counts the visit of the state that the draw picks from a roster.
    fn settle(votes: &mut VoteData, list: &Vec<(usize, usize)>, draw: u64) -> (picked: usize)
        requires
            list@.len() > 0,
            draw < DRAW_STEPS,
            old(votes).has_room(),
            forall|m: int|
                0 <= m < list@.len() ==> old(votes).votes_and_visits@.contains_key(
                    (#[trigger] list@[m]).0,
                ),
        ensures
            exists|k: int| #[trigger]
                is_pick(list@, draw as int, k) && picked == list@[k].0,
            final(votes).votes_and_visits@ == old(votes).visited(picked),
            final(votes).visits_total == old(votes).visits_total + 1,
    {
        let k: usize = pick_weighted(list, draw);
        let picked: usize = list[k].0;
        votes.count_visit(picked);
        picked
    }

    /// Selects among the resource states with a given draw.
    ///
    /// With nothing required the choice is the inner policy's. Otherwise one
    /// of the states that supply every required type is picked, by its votes
    /// and the draw, and one visit of it is counted.
    pub fn next_with_draw(
        &self,
        meta: &MoveSchedulerMeta,
        votes: &mut VoteData,
        draw: u64,
    ) -> (r: Result<Selection, SchedulerError>)
        requires
            draw < DRAW_STEPS,
            old(votes).has_room(),
        ensures
            selection_outcome(meta@, *old(votes), *final(votes), r, draw as int),
            match r {
                Ok(Selection::State(idx)) => meta@.eligible(idx),
                _ => true,
            },
    {
        if meta.current_deps.is_empty() {
            return Ok(Selection::Inner);
        }
        match self.roster(meta, votes) {
            Ok(list) => {
                let picked: usize = Self::settle(votes, &list, draw);
                Ok(Selection::State(picked))
            },
            Err(e) => Err(e),
        }
    }

    /// Selects among the resource states, drawing from `rand` only where a
    /// state is picked by vote.
    pub fn next(
        &self,
        meta: &MoveSchedulerMeta,
        votes: &mut VoteData,
        rand: &mut libafl_bolts::rands::RomuDuoJrRand,
    ) -> (r: Result<Selection, SchedulerError>)
        requires
            old(votes).has_room(),
        ensures
            exists|draw: int|
                0 <= draw < DRAW_STEPS && #[trigger] selection_outcome(
                    meta@,
                    *old(votes),
                    *final(votes),
                    r,
                    draw,
                ),
            match r {
                Ok(Selection::State(idx)) => meta@.eligible(idx),
                _ => true,
            },
    {
        if meta.current_deps.is_empty() {
            assert(selection_outcome(meta@, *old(votes), *votes, Ok(Selection::Inner), 0));
            return Ok(Selection::Inner);
        }
        match self.roster(meta, votes) {
            Ok(list) => {
                let draw: u64 = draw_below(rand, DRAW_STEPS);
                let picked: usize = Self::settle(votes, &list, draw);
                let r = Ok(Selection::State(picked));
                assert(selection_outcome(meta@, *old(votes), *votes, r, draw as int));
                r
            },
            Err(e) => {
                assert(selection_outcome(meta@, *old(votes), *votes, Err(e), 0));
                Err(e)
            },
        }
    }
}

} // verus!
