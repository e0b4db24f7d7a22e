//! Helpers on hash sets of resource types.

use std::collections::HashSet;
use vstd::prelude::*;

verus! {

broadcast use vstd::std_specs::hash::group_hash_axioms;

/// The members of a set as a list, each once, in the order in which the set
/// is walked.
pub fn members(s: &HashSet<u64>) -> (v: Vec<u64>)
    ensures
        v@.no_duplicates(),
        v@.to_set() == s@,
{
    let mut v: Vec<u64> = Vec::new();
    for x in it: s.iter()
        invariant
            v@.len() == it.index(),
            forall|j: int| 0 <= j < v@.len() ==> v@[j] == *it.seq()[j],
            it.seq().unref().to_set() == s@,
            it.seq().no_duplicates(),
            it.index() == it.seq().len() ==> v@ =~= it.seq().unref(),
    {
        v.push(*x);
    }
    v
}

/// The set of the items of a list.
pub fn set_of(list: &Vec<u64>) -> (s: HashSet<u64>)
    ensures
        s@ == list@.to_set(),
{
    let mut s: HashSet<u64> = HashSet::new();
    let mut i: usize = 0;
    while i < list.len()
        invariant
            i <= list@.len(),
            s@ == list@.take(i as int).to_set(),
        decreases list@.len() - i,
    {
        proof {
            list@.lemma_take_succ_push(i as int);
            list@.take(i as int).lemma_push_to_set_commute(list@[i as int]);
        }
        s.insert(list[i]);
        i = i + 1;
    }
    assert(list@.take(i as int) =~= list@);
    s
}

/// Whether `have` holds every item of `need`.
pub fn covers(have: &HashSet<u64>, need: &Vec<u64>) -> (r: bool)
    ensures
        r == need@.to_set().subset_of(have@),
{
    let mut i: usize = 0;
    while i < need.len()
        invariant
            i <= need@.len(),
            forall|j: int| 0 <= j < i ==> have@.contains(need@[j]),
        decreases need@.len() - i,
    {
        if !have.contains(&need[i]) {
            assert(need@.to_set().contains(need@[i as int]));
            return false;
        }
        i = i + 1;
    }
    true
}

} // verus!
