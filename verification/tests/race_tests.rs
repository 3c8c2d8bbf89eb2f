use canicasbrawl::race::{
    check_finish_crossing, find_swap_partner, lowest_marble, update_race_leader, RaceLeader,
    RaceResult,
};

#[test]
fn leader_follows_the_lowest_until_the_winner_locks_it() {
    let mut leader = RaceLeader::new();
    assert_eq!(leader.marble(), None);
    update_race_leader(&mut leader, None, Some(2));
    assert_eq!(leader.marble(), Some(2));
    assert!(!leader.is_locked());
    update_race_leader(&mut leader, None, None);
    assert_eq!(leader.marble(), Some(2));
    update_race_leader(&mut leader, Some(5), Some(1));
    assert_eq!(leader.marble(), Some(5));
    assert!(leader.is_locked());
    update_race_leader(&mut leader, Some(1), Some(1));
    assert_eq!(leader.marble(), Some(5));
}

#[test]
fn lowest_marble_takes_the_first_on_a_tie() {
    assert_eq!(lowest_marble(&vec![]), None);
    assert_eq!(lowest_marble(&vec![(0, 5), (1, -3), (2, -3), (3, 0)]), Some((1, -3)));
}

#[test]
fn finishers_in_order_without_repeats() {
    let mut result = RaceResult::new();
    assert_eq!(check_finish_crossing(&mut result, &vec![4, 2], 1_000), vec![4, 2]);
    assert_eq!(check_finish_crossing(&mut result, &vec![2, 7, 4, 7], 2_000), vec![7]);
    assert_eq!(result.finishers, vec![(4, 1_000), (2, 1_000), (7, 2_000)]);
}

#[test]
fn swap_partner_is_right_ahead() {
    let all = vec![(0, 10), (1, 4), (2, 7), (3, 7), (4, 12)];
    // Target 0 at height 10: ahead are keys 4, 7, 7; the closest is 7, the last of them.
    assert_eq!(find_swap_partner(0, 10, &all), Some((3, 7)));
}

#[test]
fn swap_partner_for_the_leader_is_right_behind() {
    let all = vec![(0, 10), (1, 4), (2, 7), (3, 7), (4, 12)];
    assert_eq!(find_swap_partner(1, 4, &all), Some((2, 7)));
}

#[test]
fn no_swap_partner_when_alone_or_level() {
    assert_eq!(find_swap_partner(0, 3, &vec![(0, 3)]), None);
    assert_eq!(find_swap_partner(0, 3, &vec![(0, 3), (1, 3)]), None);
}
