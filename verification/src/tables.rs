//! The two hash tables of the ledger: from an index to the resource types
//! recorded for it, and from a resource type to the states that supply it.
//!
//! Both are hash maps of `revm_primitives`. Their contents are named by
//! [`types_by_index`] and [`indices_by_type`]; what each operation does to the
//! contents is taken on trust from the map's documentation and is not proved
//! here.

use std::collections::HashSet;
use vstd::prelude::*;

verus! {

/// A table from a slot index to a set of resource types.
#[verifier::external_body]
pub struct TypesByIndex {
    table: revm_primitives::HashMap<usize, HashSet<u64>>,
}

/// A table from a resource type to a set of slot indices.
#[verifier::external_body]
pub struct IndicesByType {
    table: revm_primitives::HashMap<u64, HashSet<usize>>,
}

/// What a [`TypesByIndex`] holds: for each index in it, the set recorded.
pub uninterp spec fn types_by_index(t: TypesByIndex) -> Map<usize, Set<u64>>;

/// What an [`IndicesByType`] holds: for each type in it, the set recorded.
pub uninterp spec fn indices_by_type(t: IndicesByType) -> Map<u64, Set<usize>>;

impl TypesByIndex {
    /// `HashMap::new`: a table that holds nothing.
    #[verifier::external_body]
    pub(crate) fn new() -> (t: TypesByIndex)
        ensures
            types_by_index(t).dom() == Set::<usize>::empty(),
    {
        TypesByIndex { table: revm_primitives::HashMap::new() }
    }

    /// `HashMap::insert`: afterwards `idx` maps to `types`, whatever it mapped
    /// to before, and every other index is as it was.
    #[verifier::external_body]
    pub(crate) fn insert(&mut self, idx: usize, types: HashSet<u64>)
        ensures
            types_by_index(*final(self)) == types_by_index(*old(self)).insert(idx, types@),
    {
        self.table.insert(idx, types);
    }

    /// `HashMap::get`: the set recorded for `idx`, or `None` where the table
    /// has no entry for it.
    #[verifier::external_body]
    pub(crate) fn get(&self, idx: usize) -> (r: Option<&HashSet<u64>>)
        ensures
            match r {
                Some(s) => types_by_index(*self).contains_key(idx) && s@ == types_by_index(*self)[idx],
                None => !types_by_index(*self).contains_key(idx),
            },
    {
        self.table.get(&idx)
    }

    /// `HashMap::remove`: takes the entry of `idx` out and hands back its set,
    /// or changes nothing and returns `None` where there is no such entry.
    #[verifier::external_body]
    pub(crate) fn remove(&mut self, idx: usize) -> (r: Option<HashSet<u64>>)
        ensures
            types_by_index(*final(self)) == types_by_index(*old(self)).remove(idx),
            match r {
                Some(s) => types_by_index(*old(self)).contains_key(idx) && s@ == types_by_index(*old(self))[idx],
                None => !types_by_index(*old(self)).contains_key(idx),
            },
    {
        self.table.remove(&idx)
    }

    /// `HashMap::keys`: every index that has an entry, each once, in the order
    /// in which the table is walked, of which nothing is claimed.
    #[verifier::external_body]
    pub(crate) fn indices(&self) -> (r: Vec<usize>)
        ensures
            r@.no_duplicates(),
            forall|i: usize| r@.contains(i) <==> types_by_index(*self).contains_key(i),
    {
        self.table.keys().copied().collect()
    }
}

impl IndicesByType {
    /// `HashMap::new`: a table that holds nothing.
    #[verifier::external_body]
    pub(crate) fn new() -> (t: IndicesByType)
        ensures
            indices_by_type(t).dom() == Set::<u64>::empty(),
    {
        IndicesByType { table: revm_primitives::HashMap::new() }
    }

    /// `HashMap::insert`: afterwards `ty` maps to `indices`, whatever it
    /// mapped to before, and every other type is as it was.
    #[verifier::external_body]
    pub(crate) fn insert(&mut self, ty: u64, indices: HashSet<usize>)
        ensures
            indices_by_type(*final(self)) == indices_by_type(*old(self)).insert(ty, indices@),
    {
        self.table.insert(ty, indices);
    }

    /// `HashMap::get`: the set recorded for `ty`, or `None` where the table
    /// has no entry for it.
    #[verifier::external_body]
    pub(crate) fn get(&self, ty: u64) -> (r: Option<&HashSet<usize>>)
        ensures
            match r {
                Some(s) => indices_by_type(*self).contains_key(ty) && s@ == indices_by_type(*self)[ty],
                None => !indices_by_type(*self).contains_key(ty),
            },
    {
        self.table.get(&ty)
    }

    /// `HashMap::remove`: takes the entry of `ty` out and hands back its set,
    /// or changes nothing and returns `None` where there is no such entry.
    #[verifier::external_body]
    pub(crate) fn remove(&mut self, ty: u64) -> (r: Option<HashSet<usize>>)
        ensures
            indices_by_type(*final(self)) == indices_by_type(*old(self)).remove(ty),
            match r {
                Some(s) => indices_by_type(*old(self)).contains_key(ty) && s@ == indices_by_type(*old(self))[ty],
                None => !indices_by_type(*old(self)).contains_key(ty),
            },
    {
        self.table.remove(&ty)
    }
}

} // verus!
