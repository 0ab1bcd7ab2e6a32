use poker_engine::pot::{resolve_pots, split_pot};

#[test]
fn one_winner_takes_the_pot() {
    let pay = resolve_pots(
        &vec![10, 10, 10],
        &vec![true, true, true],
        &vec![5, 9, 7],
        &vec![0, 1, 2],
    );
    assert_eq!(pay, vec![0, 30, 0]);
}

#[test]
fn odd_chip_split() {
    // Three players put in 5 each; players 0 and 1 tie. With player 2 on
    // the button the walk meets player 0 first.
    let pay = resolve_pots(
        &vec![5, 5, 5],
        &vec![true, true, true],
        &vec![10, 10, 5],
        &vec![2, 0, 1],
    );
    assert_eq!(pay, vec![8, 7, 0]);
    // With player 0 on the button the walk meets player 1 first.
    let pay = resolve_pots(
        &vec![5, 5, 5],
        &vec![true, true, true],
        &vec![10, 10, 5],
        &vec![0, 1, 2],
    );
    assert_eq!(pay, vec![7, 8, 0]);
}

#[test]
fn two_odd_chips_go_to_the_first_two_winners() {
    // 20 chips for three winners: 6 each and two chips over. The button is
    // player 3; the walk meets 0, 1, 2 in turn.
    let pay = resolve_pots(
        &vec![5, 5, 5, 5],
        &vec![true, true, true, false],
        &vec![4, 4, 4, 0],
        &vec![3, 0, 1, 2],
    );
    assert_eq!(pay, vec![7, 7, 6, 0]);
}

#[test]
fn side_pots_by_level() {
    // Stakes 50, 100, 200 with the strongest hand on the smallest stake.
    let pay = resolve_pots(
        &vec![50, 100, 200],
        &vec![true, true, true],
        &vec![30, 20, 10],
        &vec![2, 0, 1],
    );
    assert_eq!(pay, vec![150, 100, 100]);
    // With the strongest hand on the largest stake, it takes everything.
    let pay = resolve_pots(
        &vec![50, 100, 200],
        &vec![true, true, true],
        &vec![10, 20, 30],
        &vec![2, 0, 1],
    );
    assert_eq!(pay, vec![0, 0, 350]);
}

#[test]
fn a_short_stack_cannot_win_above_its_level() {
    // Player 0 is all in for 10 with the best hand; player 1 beats player 2
    // for the rest.
    let pay = resolve_pots(
        &vec![10, 40, 40],
        &vec![true, true, true],
        &vec![9, 5, 3],
        &vec![0, 1, 2],
    );
    assert_eq!(pay, vec![30, 60, 0]);
}

#[test]
fn folded_stakes_are_won_by_those_still_in() {
    // Player 2 has folded after putting in 30, more than anybody else.
    let pay = resolve_pots(
        &vec![10, 20, 30],
        &vec![true, true, false],
        &vec![1, 2, 99],
        &vec![0, 1, 2],
    );
    // Layer of 10: 30 chips to player 1. The last layer takes all the rest.
    assert_eq!(pay, vec![0, 60, 0]);
    let pay = resolve_pots(
        &vec![10, 20, 30],
        &vec![true, true, false],
        &vec![2, 1, 99],
        &vec![0, 1, 2],
    );
    assert_eq!(pay, vec![30, 30, 0]);
}

#[test]
fn all_folded_to_one_player() {
    let pay = resolve_pots(
        &vec![2, 12, 0],
        &vec![false, true, false],
        &vec![0, 0, 0],
        &vec![1, 2, 0],
    );
    assert_eq!(pay, vec![0, 14, 0]);
}

#[test]
fn stakes_that_nobody_can_win_go_back() {
    let pay = resolve_pots(
        &vec![3, 4, 0],
        &vec![false, false, true],
        &vec![0, 0, 7],
        &vec![0, 1, 2],
    );
    assert_eq!(pay, vec![3, 4, 0]);
}

#[test]
fn payouts_come_to_the_stakes() {
    let stakes = vec![13, 0, 57, 57, 8, 200];
    let live = vec![true, false, true, true, false, true];
    for a in 0..4u64 {
        for b in 0..4u64 {
            for c in 0..4u64 {
                let strength = vec![a, 0, b, c, 0, 2];
                let pay = resolve_pots(&stakes, &live, &strength, &vec![3, 1, 5, 0, 2, 4]);
                assert_eq!(pay.iter().sum::<usize>(), stakes.iter().sum::<usize>());
                assert_eq!(pay[1], 0);
                assert_eq!(pay[4], 0);
            }
        }
    }
}

#[test]
fn a_split_hands_out_the_whole_pot() {
    let order = vec![2, 0, 3, 1];
    assert_eq!(split_pot(&order, &vec![true, true, true, true], 10), vec![3, 2, 2, 3]);
    assert_eq!(split_pot(&order, &vec![true, false, false, true], 9), vec![5, 0, 0, 4]);
    assert_eq!(split_pot(&order, &vec![false, false, true, false], 9), vec![0, 0, 9, 0]);
    assert_eq!(split_pot(&order, &vec![false, false, false, false], 9), vec![0, 0, 0, 0]);
    assert_eq!(split_pot(&order, &vec![true, true, false, false], 0), vec![0, 0, 0, 0]);
}
