use move_scheduler::sampling::{pick_weighted, DRAW_STEPS};

#[test]
fn draw_steps_is_one_thousand() {
    assert_eq!(DRAW_STEPS, 1000);
}

#[test]
fn lowest_draw_picks_first_candidate_with_votes() {
    let c = vec![(7usize, 90usize), (9, 10)];
    assert_eq!(pick_weighted(&c, 0), 0);
}

#[test]
fn pick_changes_exactly_at_the_vote_share() {
    let c = vec![(7usize, 90usize), (9, 10)];
    assert_eq!(pick_weighted(&c, 899), 0);
    assert_eq!(pick_weighted(&c, 900), 1);
    assert_eq!(pick_weighted(&c, 999), 1);
}

#[test]
fn three_candidates_split_by_running_sum() {
    let c = vec![(4usize, 1usize), (5, 2), (6, 7)];
    assert_eq!(pick_weighted(&c, 0), 0);
    assert_eq!(pick_weighted(&c, 99), 0);
    assert_eq!(pick_weighted(&c, 100), 1);
    assert_eq!(pick_weighted(&c, 299), 1);
    assert_eq!(pick_weighted(&c, 300), 2);
    assert_eq!(pick_weighted(&c, 999), 2);
}

#[test]
fn candidates_without_votes_are_skipped() {
    let c = vec![(1usize, 0usize), (2, 5), (3, 0)];
    for draw in 0..1000u64 {
        assert_eq!(pick_weighted(&c, draw), 1);
    }
}

#[test]
fn no_votes_at_all_falls_back_to_last() {
    let c = vec![(1usize, 0usize), (2, 0), (3, 0)];
    assert_eq!(pick_weighted(&c, 0), 2);
    assert_eq!(pick_weighted(&c, 500), 2);
}

#[test]
fn single_candidate_is_always_picked() {
    let c = vec![(11usize, 3usize)];
    assert_eq!(pick_weighted(&c, 0), 0);
    assert_eq!(pick_weighted(&c, 999), 0);
    let z = vec![(11usize, 0usize)];
    assert_eq!(pick_weighted(&z, 0), 0);
}

#[test]
fn largest_votes_do_not_overflow() {
    let c = vec![(0usize, usize::MAX), (1, usize::MAX)];
    assert_eq!(pick_weighted(&c, 0), 0);
    assert_eq!(pick_weighted(&c, 499), 0);
    assert_eq!(pick_weighted(&c, 500), 1);
    assert_eq!(pick_weighted(&c, 999), 1);
}

#[test]
fn share_of_draws_follows_votes() {
    let c = vec![(0usize, 90usize), (1, 10)];
    let mut first = 0;
    for draw in 0..1000u64 {
        if pick_weighted(&c, draw) == 0 {
            first += 1;
        }
    }
    assert_eq!(first, 900);
}
