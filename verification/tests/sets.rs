use std::collections::HashSet;

use move_scheduler::sets::{covers, members, set_of};

#[test]
fn set_of_drops_repeats() {
    let s = set_of(&vec![3, 1, 3, 2, 1]);
    assert_eq!(s.len(), 3);
    assert!(s.contains(&1) && s.contains(&2) && s.contains(&3));
    assert!(set_of(&vec![]).is_empty());
}

#[test]
fn members_lists_each_item_once() {
    let s: HashSet<u64> = [5u64, 9, 7].into_iter().collect();
    let mut m = members(&s);
    m.sort();
    assert_eq!(m, vec![5, 7, 9]);
    assert_eq!(members(&HashSet::new()), Vec::<u64>::new());
}

#[test]
fn covers_asks_for_every_item() {
    let have: HashSet<u64> = [1u64, 2, 3].into_iter().collect();
    assert!(covers(&have, &vec![]));
    assert!(covers(&have, &vec![2]));
    assert!(covers(&have, &vec![3, 1, 3]));
    assert!(!covers(&have, &vec![1, 4]));
    assert!(!covers(&HashSet::new(), &vec![1]));
    assert!(covers(&HashSet::new(), &vec![]));
}
