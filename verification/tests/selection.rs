use libafl_bolts::rands::StdRand;
use move_scheduler::ledger::MoveSchedulerMeta;
use move_scheduler::sampling::pick_weighted;
use move_scheduler::scheduler::{
    MoveTestcaseScheduler, MoveVMStateScheduler, SchedulerError, Selection,
};
use move_scheduler::votes::VoteData;

const X: u64 = 1;
const Y: u64 = 2;

fn scenario() -> (MoveSchedulerMeta, VoteData) {
    let artifacts = MoveTestcaseScheduler { inner: () };
    let states = MoveVMStateScheduler { inner: () };
    let mut meta = MoveSchedulerMeta::new();
    artifacts.on_add(&mut meta, 0, &vec![X, Y]);
    states.on_add(&mut meta, 1, &vec![X]);
    states.on_add(&mut meta, 2, &vec![X, Y]);
    states.on_add(&mut meta, 3, &vec![Y]);
    assert_eq!(artifacts.next(&mut meta, 0), Ok(0));
    let mut votes = VoteData::new();
    votes.votes_and_visits.insert(1, (5, 0));
    votes.votes_and_visits.insert(2, (1, 0));
    votes.votes_and_visits.insert(3, (9, 0));
    (meta, votes)
}

#[test]
fn only_the_state_covering_all_requirements_is_returned() {
    let states = MoveVMStateScheduler { inner: () };
    let (meta, mut votes) = scenario();
    let mut rand = StdRand::with_seed(7);
    for _ in 0..200 {
        assert_eq!(states.next(&meta, &mut votes, &mut rand), Ok(Selection::State(2)));
    }
    for draw in 0..1000u64 {
        assert_eq!(states.next_with_draw(&meta, &mut votes, draw), Ok(Selection::State(2)));
    }
    assert_eq!(states.eligible_states(&meta), vec![2]);
}

#[test]
fn selection_starves_once_the_only_cover_is_removed() {
    let states = MoveVMStateScheduler { inner: () };
    let (mut meta, mut votes) = scenario();
    let mut rand = StdRand::with_seed(7);
    assert_eq!(states.next(&meta, &mut votes, &mut rand), Ok(Selection::State(2)));
    assert_eq!(states.on_remove(&mut meta, 2), Ok(()));
    assert_eq!(
        states.next(&meta, &mut votes, &mut rand),
        Err(SchedulerError::StarvedSelection)
    );
    assert_eq!(
        states.next_with_draw(&meta, &mut votes, 0),
        Err(SchedulerError::StarvedSelection)
    );
    assert_eq!(states.roster(&meta, &votes), Err(SchedulerError::StarvedSelection));
    assert_eq!(votes.visits_total, 1);
}

#[test]
fn nothing_required_passes_the_choice_to_the_inner_policy() {
    let artifacts = MoveTestcaseScheduler { inner: () };
    let states = MoveVMStateScheduler { inner: () };
    let (mut meta, mut votes) = scenario();
    artifacts.on_add(&mut meta, 8, &vec![]);
    assert_eq!(artifacts.next(&mut meta, 8), Ok(8));
    let mut rand = StdRand::with_seed(3);
    assert_eq!(states.next(&meta, &mut votes, &mut rand), Ok(Selection::Inner));
    assert_eq!(states.next_with_draw(&meta, &mut votes, 999), Ok(Selection::Inner));
    assert_eq!(votes.visits_total, 0);
    assert_eq!(votes.votes_and_visits.get(&1), Some(&(5, 0)));
    assert_eq!(votes.votes_and_visits.get(&2), Some(&(1, 0)));
    assert_eq!(votes.votes_and_visits.get(&3), Some(&(9, 0)));
}

#[test]
fn unconstrained_selection_on_empty_ledger_is_passed_on() {
    let states = MoveVMStateScheduler { inner: () };
    let meta = MoveSchedulerMeta::new();
    let mut votes = VoteData::new();
    assert_eq!(states.next_with_draw(&meta, &mut votes, 0), Ok(Selection::Inner));
}

#[test]
fn a_selection_counts_one_visit() {
    let states = MoveVMStateScheduler { inner: () };
    let (meta, mut votes) = scenario();
    votes.votes_and_visits.insert(2, (1, 41));
    votes.visits_total = 100;
    assert_eq!(states.next_with_draw(&meta, &mut votes, 123), Ok(Selection::State(2)));
    assert_eq!(votes.visits_total, 101);
    assert_eq!(votes.votes_and_visits.get(&2), Some(&(1, 42)));
    assert_eq!(votes.votes_and_visits.get(&1), Some(&(5, 0)));
    assert_eq!(votes.votes_and_visits.get(&3), Some(&(9, 0)));
    assert_eq!(votes.votes_and_visits.len(), 3);
}

#[test]
fn count_visit_touches_one_entry() {
    let mut votes = VoteData::new();
    votes.votes_and_visits.insert(4, (10, 2));
    votes.votes_and_visits.insert(5, (20, 3));
    votes.visits_total = 5;
    votes.count_visit(5);
    assert_eq!(votes.visits_total, 6);
    assert_eq!(votes.votes_and_visits.get(&4), Some(&(10, 2)));
    assert_eq!(votes.votes_and_visits.get(&5), Some(&(20, 4)));
}

#[test]
fn eligible_state_without_votes_is_missing() {
    let states = MoveVMStateScheduler { inner: () };
    let (meta, _) = scenario();
    let mut votes = VoteData::new();
    votes.votes_and_visits.insert(1, (5, 0));
    assert_eq!(
        states.next_with_draw(&meta, &mut votes, 0),
        Err(SchedulerError::MissingEntity)
    );
    let mut rand = StdRand::with_seed(1);
    assert_eq!(
        states.next(&meta, &mut votes, &mut rand),
        Err(SchedulerError::MissingEntity)
    );
    assert_eq!(votes.visits_total, 0);
    assert_eq!(votes.votes_and_visits.get(&1), Some(&(5, 0)));
}

fn two_covering_states(votes_a: usize, votes_b: usize) -> (MoveSchedulerMeta, VoteData) {
    let artifacts = MoveTestcaseScheduler { inner: () };
    let states = MoveVMStateScheduler { inner: () };
    let mut meta = MoveSchedulerMeta::new();
    artifacts.on_add(&mut meta, 0, &vec![X]);
    states.on_add(&mut meta, 10, &vec![X, Y]);
    states.on_add(&mut meta, 20, &vec![X]);
    states.on_add(&mut meta, 30, &vec![Y]);
    assert_eq!(artifacts.next(&mut meta, 0), Ok(0));
    let mut votes = VoteData::new();
    votes.votes_and_visits.insert(10, (votes_a, 0));
    votes.votes_and_visits.insert(20, (votes_b, 0));
    votes.votes_and_visits.insert(30, (1000, 0));
    (meta, votes)
}

#[test]
fn roster_lists_each_eligible_state_with_its_votes() {
    let states = MoveVMStateScheduler { inner: () };
    let (meta, votes) = two_covering_states(90, 10);
    let mut found = states.eligible_states(&meta);
    found.sort();
    assert_eq!(found, vec![10, 20]);
    let mut roster = states.roster(&meta, &votes).unwrap();
    roster.sort();
    assert_eq!(roster, vec![(10, 90), (20, 10)]);
}

#[test]
fn selection_with_a_draw_agrees_with_the_pick_on_the_roster() {
    let states = MoveVMStateScheduler { inner: () };
    let (meta, mut votes) = two_covering_states(90, 10);
    let roster = states.roster(&meta, &votes).unwrap();
    for draw in [0u64, 1, 99, 100, 101, 500, 899, 900, 901, 999] {
        let expected = roster[pick_weighted(&roster, draw)].0;
        assert_eq!(
            states.next_with_draw(&meta, &mut votes, draw),
            Ok(Selection::State(expected))
        );
    }
    assert_eq!(votes.visits_total, 10);
}

#[test]
fn many_votes_win_most_selections() {
    let states = MoveVMStateScheduler { inner: () };
    let (meta, mut votes) = two_covering_states(90, 10);
    let mut rand = StdRand::with_seed(0x5eed);
    let mut heavy = 0;
    for _ in 0..10_000 {
        match states.next(&meta, &mut votes, &mut rand) {
            Ok(Selection::State(10)) => heavy += 1,
            Ok(Selection::State(20)) => {}
            other => panic!("unexpected selection {:?}", other),
        }
    }
    assert!(heavy >= 8_000, "heavy candidate picked {} times", heavy);
    assert!(heavy < 10_000);
    assert_eq!(votes.visits_total, 10_000);
    let a = votes.votes_and_visits.get(&10).unwrap().1;
    let b = votes.votes_and_visits.get(&20).unwrap().1;
    assert_eq!(a, heavy);
    assert_eq!(a + b, 10_000);
    assert_eq!(votes.votes_and_visits.get(&30), Some(&(1000, 0)));
}

#[test]
fn equal_votes_let_the_draw_reach_both_states() {
    let states = MoveVMStateScheduler { inner: () };
    let (meta, mut votes) = two_covering_states(1, 1);
    let mut rand = StdRand::with_seed(42);
    let mut seen_a = false;
    let mut seen_b = false;
    for _ in 0..500 {
        match states.next(&meta, &mut votes, &mut rand) {
            Ok(Selection::State(10)) => seen_a = true,
            Ok(Selection::State(20)) => seen_b = true,
            other => panic!("unexpected selection {:?}", other),
        }
    }
    assert!(seen_a && seen_b);
}
