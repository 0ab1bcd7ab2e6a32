use poker_engine::action::{interpret, Action, Street};

#[test]
fn fold_is_always_a_fold() {
    assert_eq!(interpret(Action::Fold, 0, 100, false, 0, 2), Action::Fold);
    assert_eq!(interpret(Action::Fold, 5, 0, true, 5, 2), Action::Fold);
}

#[test]
fn check_is_legal_only_when_the_bet_is_matched() {
    assert_eq!(interpret(Action::Check, 0, 100, false, 0, 2), Action::Check);
    assert_eq!(interpret(Action::Check, 10, 100, false, 10, 2), Action::Check);
    assert_eq!(interpret(Action::Check, 4, 100, false, 10, 2), Action::Fold);
    assert_eq!(interpret(Action::Check, 0, 100, true, 2, 2), Action::Fold);
}

#[test]
fn call_matches_the_bet_up_to_the_stack() {
    assert_eq!(interpret(Action::Call, 2, 100, true, 2, 2), Action::Check);
    assert_eq!(interpret(Action::Call, 1, 100, false, 2, 2), Action::Bet(1));
    assert_eq!(interpret(Action::Call, 0, 100, false, 30, 10), Action::Bet(30));
    assert_eq!(interpret(Action::Call, 10, 15, false, 30, 10), Action::Bet(15));
}

#[test]
fn all_in_bets_the_stack() {
    assert_eq!(interpret(Action::AllIn, 0, 77, false, 0, 2), Action::Bet(77));
    assert_eq!(interpret(Action::AllIn, 10, 3, false, 50, 20), Action::Bet(3));
}

#[test]
fn bet_of_nothing_is_a_check_or_a_fold() {
    assert_eq!(interpret(Action::Bet(0), 0, 100, false, 0, 2), Action::Check);
    assert_eq!(interpret(Action::Bet(0), 2, 100, true, 2, 2), Action::Check);
    assert_eq!(interpret(Action::Bet(0), 2, 100, false, 2, 2), Action::Fold);
    assert_eq!(interpret(Action::Bet(0), 0, 100, true, 2, 2), Action::Fold);
}

#[test]
fn bet_that_matches_is_a_call() {
    assert_eq!(interpret(Action::Bet(20), 10, 100, false, 30, 20), Action::Bet(20));
    assert_eq!(interpret(Action::Bet(20), 10, 12, false, 30, 20), Action::Bet(12));
}

#[test]
fn under_call_becomes_a_call() {
    assert_eq!(interpret(Action::Bet(5), 10, 100, false, 30, 20), Action::Bet(20));
    assert_eq!(interpret(Action::Bet(5), 10, 8, false, 30, 20), Action::Bet(8));
}

#[test]
fn under_raise_clamp() {
    // A bet of 12 into a bet of 10 raises by 2 where 10 is the least.
    assert_eq!(interpret(Action::Bet(12), 0, 200, false, 10, 10), Action::Bet(20));
    assert_eq!(interpret(Action::Bet(12), 0, 15, false, 10, 10), Action::Bet(15));
    assert_eq!(interpret(Action::Bet(25), 5, 200, false, 10, 30), Action::Bet(35));
}

#[test]
fn legal_raise_is_capped_by_the_stack() {
    assert_eq!(interpret(Action::Bet(20), 0, 200, false, 10, 10), Action::Bet(20));
    assert_eq!(interpret(Action::Bet(500), 0, 200, false, 10, 10), Action::Bet(200));
    assert_eq!(interpret(Action::Bet(7), 0, 200, false, 0, 2), Action::Bet(7));
    assert_eq!(interpret(Action::Bet(1), 0, 200, false, 0, 2), Action::Bet(2));
}

#[test]
fn blind_is_capped_by_the_stack() {
    assert_eq!(interpret(Action::PostBlind(2), 0, 200, false, 0, 2), Action::PostBlind(2));
    assert_eq!(interpret(Action::PostBlind(2), 0, 1, false, 0, 2), Action::PostBlind(1));
    assert_eq!(interpret(Action::PostBlind(1), 0, 0, false, 0, 2), Action::PostBlind(0));
}

#[test]
fn huge_bets_do_not_overflow() {
    let big = usize::MAX;
    assert_eq!(interpret(Action::Bet(big), big - 1, 10, false, big, big), Action::Bet(10));
    assert_eq!(interpret(Action::Bet(big), 0, big, false, 5, 2), Action::Bet(big));
    assert_eq!(interpret(Action::Bet(3), 4, 9, false, big, big), Action::Bet(9));
}

#[test]
fn interpreting_twice_changes_nothing() {
    let requests = [
        Action::Fold,
        Action::Check,
        Action::Call,
        Action::AllIn,
        Action::Bet(0),
        Action::Bet(1),
        Action::Bet(5),
        Action::Bet(12),
        Action::Bet(40),
        Action::Bet(1000),
        Action::PostBlind(1),
        Action::PostBlind(2),
    ];
    for &request in &requests {
        for &(stake, bet) in &[(0, 0), (0, 2), (2, 2), (10, 10), (4, 30)] {
            for &chips in &[1, 2, 7, 200] {
                for &option in &[false, true] {
                    for &raise in &[1, 2, 10, 26] {
                        let once = interpret(request, stake, chips, option, bet, raise);
                        let twice = interpret(once, stake, chips, option, bet, raise);
                        assert_eq!(once, twice);
                    }
                }
            }
        }
    }
}

#[test]
fn no_move_takes_more_than_the_stack() {
    for bet in 0..40 {
        for chips in 0..12 {
            let requests = [Action::Call, Action::AllIn, Action::Bet(bet), Action::PostBlind(bet)];
            for &request in &requests {
                match interpret(request, 3, chips, false, 17, 5) {
                    Action::Bet(b) | Action::PostBlind(b) => assert!(b <= chips),
                    Action::Check | Action::Fold => {}
                    other => panic!("not a move of the table: {:?}", other),
                }
            }
        }
    }
}

#[test]
fn streets_follow_each_other() {
    assert_eq!(Street::PreFlop.next(), Street::Flop);
    assert_eq!(Street::Flop.next(), Street::Turn);
    assert_eq!(Street::Turn.next(), Street::River);
    assert_eq!(Street::River.next(), Street::River);
}
