//! The dependency ledger: which resource types each test artifact requires,
//! which resource states supply which types, and which types have no
//! supplier at present.
//!
//! A resource type is an opaque identifier; the ledger holds it as a `u64`.

use std::collections::HashSet;
use vstd::prelude::*;
use crate::sets::members;
use crate::tables::{indices_by_type, types_by_index, IndicesByType, TypesByIndex};

verus! {

broadcast use vstd::std_specs::hash::group_hash_axioms;

/// The ledger as mathematical maps and sets.
pub struct Ledger {
    /// The artifact selected last.
    pub current_idx: usize,
    /// The types that the selected artifact requires.
    pub current_deps: Set<u64>,
    /// For each artifact, the types it requires.
    pub required: Map<usize, Set<u64>>,
    /// For each type, the states that supply it.
    pub providers: Map<u64, Set<usize>>,
    /// For each state, the types it supplies.
    pub provided: Map<usize, Set<u64>>,
    /// The types known to have no supplier.
    pub unavailable: Set<u64>,
}

impl Ledger {
    /// The ledger that records nothing.
    pub open spec fn empty() -> Ledger {
        Ledger {
            current_idx: 0,
            current_deps: Set::empty(),
            required: Map::empty(),
            providers: Map::empty(),
            provided: Map::empty(),
            unavailable: Set::empty(),
        }
    }

    /// The types that state `idx` supplies; none where it is not recorded.
    pub open spec fn types_of(self, idx: usize) -> Set<u64> {
        if self.provided.contains_key(idx) {
            self.provided[idx]
        } else {
            Set::empty()
        }
    }

    /// The states that supply type `ty`; none where it is not recorded.
    pub open spec fn states_of(self, ty: u64) -> Set<usize> {
        if self.providers.contains_key(ty) {
            self.providers[ty]
        } else {
            Set::empty()
        }
    }

    /// The two indexes mirror each other: a state is listed under a type
    /// exactly when the type is listed under the state.
    pub open spec fn inverse_consistent(self) -> bool {
        forall|ty: u64, idx: usize|
            #![trigger self.states_of(ty).contains(idx)]
            #![trigger self.types_of(idx).contains(ty)]
            self.states_of(ty).contains(idx) <==> self.types_of(idx).contains(ty)
    }

    /// A type marked unavailable has no supplier.
    pub open spec fn unavailable_sound(self) -> bool {
        forall|ty: u64, idx: usize|
            self.unavailable.contains(ty) ==> !(#[trigger] self.states_of(ty).contains(idx))
    }

    /// Both invariants of the state indexes.
    pub open spec fn wf(self) -> bool {
        self.inverse_consistent() && self.unavailable_sound()
    }

    /// The current requirement set is the one recorded for the current
    /// artifact.
    pub open spec fn current_recorded(self) -> bool {
        self.required.contains_key(self.current_idx) && self.current_deps
            == self.required[self.current_idx]
    }

    /// Whether every type recorded for state `idx` has an entry in the type
    /// index. Mirrored indexes have this for every state.
    pub open spec fn types_indexed(self, idx: usize) -> bool {
        forall|ty: u64| #[trigger] self.types_of(idx).contains(ty) ==> self.providers.contains_key(ty)
    }

    /// Whether `idx` is the only state, if any, that supplies `ty`.
    pub open spec fn sole_provider(self, ty: u64, idx: usize) -> bool {
        forall|other: usize| #[trigger] self.states_of(ty).contains(other) ==> other == idx
    }

    /// The ledger after artifact `idx` is admitted with requirement set `deps`.
    pub open spec fn record_artifact(self, idx: usize, deps: Set<u64>) -> Ledger {
        Ledger { required: self.required.insert(idx, deps), ..self }
    }

    /// The ledger after artifact `idx` is selected.
    pub open spec fn select_artifact(self, idx: usize) -> Ledger {
        Ledger { current_idx: idx, current_deps: self.required[idx], ..self }
    }

    /// The type index after `idx` is listed under each of `types`.
    pub open spec fn providers_with(self, idx: usize, types: Set<u64>) -> Map<u64, Set<usize>> {
        Map::new(
            |ty: u64| self.providers.contains_key(ty) || types.contains(ty),
            |ty: u64|
                if types.contains(ty) {
                    self.states_of(ty).insert(idx)
                } else {
                    self.providers[ty]
                },
        )
    }

    /// The type index after `idx` is struck from under each of `types`.
    pub open spec fn providers_without(self, idx: usize, types: Set<u64>) -> Map<u64, Set<usize>> {
        Map::new(
            |ty: u64| self.providers.contains_key(ty),
            |ty: u64|
                if types.contains(ty) {
                    self.providers[ty].remove(idx)
                } else {
                    self.providers[ty]
                },
        )
    }

    /// The unavailable types after `idx` stops supplying `types`: those of
    /// `types` that no other state supplies join the set.
    pub open spec fn unavailable_without(self, idx: usize, types: Set<u64>) -> Set<u64> {
        Set::new(
            |ty: u64|
                self.unavailable.contains(ty) || (types.contains(ty) && self.sole_provider(
                    ty,
                    idx,
                )),
        )
    }

    /// The ledger after state `idx` is admitted as a supplier of `types`: the
    /// state is listed under each of them, none of them stays unavailable,
    /// and `types` becomes the record of the state.
    pub open spec fn add_state(self, idx: usize, types: Set<u64>) -> Ledger {
        Ledger {
            providers: self.providers_with(idx, types),
            provided: self.provided.insert(idx, types),
            unavailable: self.unavailable.difference(types),
            ..self
        }
    }

    /// The ledger after state `idx` is removed.
    pub open spec fn remove_state(self, idx: usize) -> Ledger {
        Ledger {
            providers: self.providers_without(idx, self.types_of(idx)),
            provided: self.provided.remove(idx),
            unavailable: self.unavailable_without(idx, self.types_of(idx)),
            ..self
        }
    }

    /// Whether state `idx` can supply every type currently required.
    pub open spec fn eligible(self, idx: usize) -> bool {
        self.provided.contains_key(idx) && self.current_deps.subset_of(self.provided[idx])
    }
}

/// The ledger that records nothing keeps both index invariants.
pub proof fn lemma_empty_wf()
    ensures
        Ledger::empty().wf(),
{
}

/// Admitting a state keeps the two indexes mirrored, provided that the state
/// has no record yet, or none but of types that it is admitted with again.
pub proof fn lemma_add_state_keeps_mirror(l: Ledger, idx: usize, types: Set<u64>)
    requires
        l.inverse_consistent(),
        l.types_of(idx).subset_of(types),
    ensures
        l.add_state(idx, types).inverse_consistent(),
{
    let n = l.add_state(idx, types);
    assert forall|ty: u64, i: usize| n.states_of(ty).contains(i) <==> n.types_of(i).contains(
        ty,
    ) by {
        assert(l.states_of(ty).contains(i) <==> l.types_of(i).contains(ty));
    }
}

/// Admitting a state over a record that holds a type it is not admitted with
/// breaks the mirror: the state stays listed under that type.
pub proof fn lemma_add_state_over_other_types(l: Ledger, idx: usize, types: Set<u64>, ty: u64)
    requires
        l.inverse_consistent(),
        l.types_of(idx).contains(ty),
        !types.contains(ty),
    ensures
        !l.add_state(idx, types).inverse_consistent(),
{
    let n = l.add_state(idx, types);
    assert(l.states_of(ty).contains(idx));
    assert(n.states_of(ty).contains(idx));
    assert(!n.types_of(idx).contains(ty));
}

/// Admitting a state keeps the unavailable set sound.
pub proof fn lemma_add_state_keeps_unavailable_sound(l: Ledger, idx: usize, types: Set<u64>)
    requires
        l.unavailable_sound(),
    ensures
        l.add_state(idx, types).unavailable_sound(),
{
    let n = l.add_state(idx, types);
    assert forall|ty: u64, i: usize| n.unavailable.contains(ty) implies !n.states_of(ty).contains(
        i,
    ) by {
        assert(!l.states_of(ty).contains(i));
    }
}

/// Admitting a state that has no record yet, or none but of types that it is
/// admitted with again, keeps both index invariants.
pub proof fn lemma_add_state_keeps_wf(l: Ledger, idx: usize, types: Set<u64>)
    requires
        l.wf(),
        l.types_of(idx).subset_of(types),
    ensures
        l.add_state(idx, types).wf(),
{
    lemma_add_state_keeps_mirror(l, idx, types);
    lemma_add_state_keeps_unavailable_sound(l, idx, types);
}

/// Removing a state keeps the two indexes mirrored.
pub proof fn lemma_remove_state_keeps_mirror(l: Ledger, idx: usize)
    requires
        l.inverse_consistent(),
    ensures
        l.remove_state(idx).inverse_consistent(),
{
    let n = l.remove_state(idx);
    assert forall|ty: u64, i: usize| n.states_of(ty).contains(i) <==> n.types_of(i).contains(
        ty,
    ) by {
        assert(l.states_of(ty).contains(i) <==> l.types_of(i).contains(ty));
        assert(l.states_of(ty).contains(idx) <==> l.types_of(idx).contains(ty));
    }
}

/// Removing a state keeps the unavailable set sound.
pub proof fn lemma_remove_state_keeps_unavailable_sound(l: Ledger, idx: usize)
    requires
        l.unavailable_sound(),
    ensures
        l.remove_state(idx).unavailable_sound(),
{
    let n = l.remove_state(idx);
    assert forall|ty: u64, i: usize| n.unavailable.contains(ty) implies !n.states_of(ty).contains(
        i,
    ) by {
        if l.unavailable.contains(ty) {
            assert(!l.states_of(ty).contains(i));
        } else {
            assert(l.sole_provider(ty, idx));
            if l.states_of(ty).contains(i) {
                assert(i == idx);
            }
        }
    }
}

/// Removing a state keeps both index invariants.
pub proof fn lemma_remove_state_keeps_wf(l: Ledger, idx: usize)
    requires
        l.wf(),
    ensures
        l.remove_state(idx).wf(),
{
    lemma_remove_state_keeps_mirror(l, idx);
    lemma_remove_state_keeps_unavailable_sound(l, idx);
}

/// One change to the state indexes of a ledger.
pub enum StateChange {
    /// A state is admitted as a supplier of a set of types.
    Add(usize, Set<u64>),
    /// A state is removed.
    Remove(usize),
}

/// The ledger after the first `n` of `changes` are made to `l` in turn. A
/// removal of a state without a record changes nothing.
pub open spec fn after_changes(l: Ledger, changes: Seq<StateChange>, n: nat) -> Ledger
    decreases n,
{
    if n == 0 || n > changes.len() {
        l
    } else {
        let prior = after_changes(l, changes, (n - 1) as nat);
        match changes[n - 1] {
            StateChange::Add(idx, types) => prior.add_state(idx, types),
            StateChange::Remove(idx) => if prior.provided.contains_key(idx) {
                prior.remove_state(idx)
            } else {
                prior
            },
        }
    }
}

/// Whether each admission among the first `n` of `changes` is of a state
/// that has no record at that moment, or none but of types that it is
/// admitted with again.
pub open spec fn admits_anew(l: Ledger, changes: Seq<StateChange>, n: nat) -> bool {
    forall|m: nat|
        m < n && m < changes.len() ==> match #[trigger] changes[m as int] {
            StateChange::Add(idx, types) => after_changes(l, changes, m).types_of(idx).subset_of(
                types,
            ),
            StateChange::Remove(_) => true,
        }
}

/// Whatever states are admitted and removed, none admitted over a record
/// that holds a type it is not admitted with, starting from a ledger that
/// keeps the index invariants (the empty one does), the invariants hold
/// after every single change.
pub proof fn lemma_changes_keep_wf(l: Ledger, changes: Seq<StateChange>, n: nat)
    requires
        l.wf(),
        admits_anew(l, changes, n),
    ensures
        after_changes(l, changes, n).wf(),
    decreases n,
{
    if n == 0 || n > changes.len() {
    } else {
        lemma_changes_keep_wf(l, changes, (n - 1) as nat);
        let prior = after_changes(l, changes, (n - 1) as nat);
        assert(changes[(n - 1) as nat as int] == changes[n - 1]);
        match changes[n - 1] {
            StateChange::Add(idx, types) => {
                lemma_add_state_keeps_wf(prior, idx, types);
            },
            StateChange::Remove(idx) => {
                lemma_remove_state_keeps_wf(prior, idx);
            },
        }
    }
}

/// Once the last supplier of a type is removed, the type is unavailable.
pub proof fn lemma_last_provider_removed(l: Ledger, idx: usize, ty: u64)
    requires
        l.inverse_consistent(),
        l.states_of(ty).contains(idx),
        l.sole_provider(ty, idx),
    ensures
        l.remove_state(idx).unavailable.contains(ty),
        l.remove_state(idx).states_of(ty) =~= Set::<usize>::empty(),
{
    assert(l.types_of(idx).contains(ty));
}

/// Once a supplier of a type is admitted, the type is not unavailable, and
/// the state is listed as its supplier.
pub proof fn lemma_provider_added(l: Ledger, idx: usize, types: Set<u64>, ty: u64)
    requires
        types.contains(ty),
    ensures
        !l.add_state(idx, types).unavailable.contains(ty),
        l.add_state(idx, types).states_of(ty).contains(idx),
{
}

/// The dependency ledger.
pub struct MoveSchedulerMeta {
    /// The artifact selected last.
    pub current_idx: usize,
    /// The types that the selected artifact requires.
    pub current_deps: HashSet<u64>,
    /// For each artifact, the types it requires.
    pub testcase_to_deps: TypesByIndex,
    /// For each type, the states that supply it.
    pub deps_state_idx: IndicesByType,
    /// For each state, the types it supplies.
    pub state_idx_to_deps: TypesByIndex,
    /// The types known to have no supplier.
    pub unavailable_types: HashSet<u64>,
}

impl View for MoveSchedulerMeta {
    type V = Ledger;

    open spec fn view(&self) -> Ledger {
        Ledger {
            current_idx: self.current_idx,
            current_deps: self.current_deps@,
            required: types_by_index(self.testcase_to_deps),
            providers: indices_by_type(self.deps_state_idx),
            provided: types_by_index(self.state_idx_to_deps),
            unavailable: self.unavailable_types@,
        }
    }
}

impl MoveSchedulerMeta {
    /// A ledger that records nothing.
    pub fn new() -> (m: MoveSchedulerMeta)
        ensures
            m@ == Ledger::empty(),
    {
        let m = MoveSchedulerMeta {
            current_idx: 0,
            current_deps: HashSet::new(),
            testcase_to_deps: TypesByIndex::new(),
            deps_state_idx: IndicesByType::new(),
            state_idx_to_deps: TypesByIndex::new(),
            unavailable_types: HashSet::new(),
        };
        assert(m@.required =~= Map::empty());
        assert(m@.providers =~= Map::empty());
        assert(m@.provided =~= Map::empty());
        m
    }

    /// Whether artifact `idx` is recorded as requiring type `ty`.
    pub fn artifact_requires(&self, idx: usize, ty: u64) -> (r: bool)
        ensures
            r == (self@.required.contains_key(idx) && self@.required[idx].contains(ty)),
    {
        match self.testcase_to_deps.get(idx) {
            Some(types) => types.contains(&ty),
            None => false,
        }
    }

    /// Whether state `idx` is recorded as supplying type `ty`.
    pub fn supplies(&self, idx: usize, ty: u64) -> (r: bool)
        ensures
            r == self@.types_of(idx).contains(ty),
    {
        match self.state_idx_to_deps.get(idx) {
            Some(types) => types.contains(&ty),
            None => false,
        }
    }

    /// Whether state `idx` is listed among the suppliers of type `ty`.
    pub fn is_supplier(&self, ty: u64, idx: usize) -> (r: bool)
        ensures
            r == self@.states_of(ty).contains(idx),
    {
        match self.deps_state_idx.get(ty) {
            Some(states) => states.contains(&idx),
            None => false,
        }
    }

    /// The artifacts that have a requirement set recorded, each once.
    pub fn artifact_indices(&self) -> (r: Vec<usize>)
        ensures
            r@.no_duplicates(),
            forall|idx: usize| r@.contains(idx) <==> self@.required.contains_key(idx),
    {
        self.testcase_to_deps.indices()
    }

    /// The states that have a record, each once.
    pub fn state_indices(&self) -> (r: Vec<usize>)
        ensures
            r@.no_duplicates(),
            forall|idx: usize| r@.contains(idx) <==> self@.provided.contains_key(idx),
    {
        self.state_idx_to_deps.indices()
    }

    /// The types that artifact `idx` requires, each once; `None` where the
    /// artifact has no record.
    pub fn required_types(&self, idx: usize) -> (r: Option<Vec<u64>>)
        ensures
            match r {
                Some(list) => self@.required.contains_key(idx) && list@.no_duplicates()
                    && list@.to_set() == self@.required[idx],
                None => !self@.required.contains_key(idx),
            },
    {
        match self.testcase_to_deps.get(idx) {
            Some(types) => Some(members(types)),
            None => None,
        }
    }

    /// The types that state `idx` supplies, each once; `None` where the
    /// state has no record.
    pub fn provided_types(&self, idx: usize) -> (r: Option<Vec<u64>>)
        ensures
            match r {
                Some(list) => self@.provided.contains_key(idx) && list@.no_duplicates()
                    && list@.to_set() == self@.provided[idx],
                None => !self@.provided.contains_key(idx),
            },
    {
        match self.state_idx_to_deps.get(idx) {
            Some(types) => Some(members(types)),
            None => None,
        }
    }

    /// Whether the type index has an entry for type `ty`.
    pub fn knows_type(&self, ty: u64) -> (r: bool)
        ensures
            r == self@.providers.contains_key(ty),
    {
        self.deps_state_idx.get(ty).is_some()
    }

    /// Whether type `ty` is marked as having no supplier.
    pub fn is_unavailable(&self, ty: u64) -> (r: bool)
        ensures
            r == self@.unavailable.contains(ty),
    {
        self.unavailable_types.contains(&ty)
    }
}

} // verus!
