use poker_engine::action::{Action, Street};
use poker_engine::card::Card;
use poker_engine::event::{Event, MoveType, Outbound, PayoutReason};
use poker_engine::game::{Game, Phase};

fn card(text: &str) -> Card {
    let mut chars = text.chars();
    let value = match chars.next().unwrap() {
        '2' => 0,
        '3' => 1,
        '4' => 2,
        '5' => 3,
        '6' => 4,
        '7' => 5,
        '8' => 6,
        '9' => 7,
        'T' => 8,
        'J' => 9,
        'Q' => 10,
        'K' => 11,
        'A' => 12,
        other => panic!("no value {}", other),
    };
    let suit = match chars.next().unwrap() {
        's' => 0,
        'c' => 1,
        'h' => 2,
        'd' => 3,
        other => panic!("no suit {}", other),
    };
    Card { value, suit }
}

fn cards(texts: &str) -> Vec<Card> {
    texts.split_whitespace().map(card).collect()
}

/// A table in the lobby with one player for each stack, seated in `order`.
fn table(stacks: &[usize], order: Vec<usize>) -> Game {
    let mut game = Game::new(200);
    for i in 0..stacks.len() {
        let seats: Vec<usize> = if i + 1 == stacks.len() {
            order.clone()
        } else {
            (0..=i).collect()
        };
        let name = format!("player{}", i);
        let address = format!("http://localhost:{}", 9000 + i);
        assert!(game.seat(&name, &address, 1000 + i as u128, seats));
    }
    for i in 0..stacks.len() {
        game.players[i].chips = stacks[i];
    }
    game
}

/// Takes a request and looks the table over.
fn act(game: &mut Game, action: Action) {
    game.apply_action(action);
    assert!(game.is_well_formed());
}

fn total(game: &Game) -> usize {
    game.players
        .iter()
        .map(|p| p.chips + p.street_contrib + p.hand_contrib)
        .sum()
}

fn events_of(out: &[Outbound]) -> Vec<&Event> {
    out.iter().map(|o| &o.event).collect()
}

type Payout = (PayoutReason, Vec<(usize, usize)>, Vec<(usize, (Card, Card))>);

fn payout_of(out: &[Outbound]) -> Option<Payout> {
    for o in out {
        if let Event::PayoutInfo { reason, payouts, hole_cards, .. } = &o.event {
            return Some((*reason, payouts.clone(), hole_cards.clone()));
        }
    }
    None
}

const BOARD: &str = "2c 7d 9h Js 3c";

#[test]
fn heads_up_walkover() {
    let mut game = table(&[200, 200], vec![0, 1]);
    assert!(game.begin());
    assert!(game.deal(&cards(&format!("{} As Ah Ks Kh", BOARD))));
    // The button has moved to player 1, who is the small blind.
    assert_eq!(game.seat_order, vec![1, 0]);
    assert_eq!(game.players[1].street_contrib, 1);
    assert_eq!(game.players[0].street_contrib, 2);
    assert!(game.players[0].has_option);
    assert_eq!(game.current_bet, 2);
    assert_eq!(game.to_act, 1);
    game.take_events();

    act(&mut game, Action::Bet(1));
    assert_eq!(game.to_act, 0);
    act(&mut game, Action::Check);
    assert_eq!(game.street, Street::Flop);
    assert_eq!(game.to_act, 0);
    assert_eq!(game.players[0].hand_contrib, 2);
    assert_eq!(game.players[1].hand_contrib, 2);

    act(&mut game, Action::Bet(10));
    assert_eq!(game.to_act, 1);
    act(&mut game, Action::Fold);

    assert_eq!(game.phase, Phase::HandComplete);
    assert_eq!(game.players[0].chips, 202);
    assert_eq!(game.players[1].chips, 198);
    let out = game.take_events();
    let (reason, payouts, shown) = payout_of(&out).unwrap();
    assert_eq!(reason, PayoutReason::AllFolded);
    assert_eq!(payouts, vec![(0, 14), (1, 0)]);
    assert!(shown.is_empty());
    assert_eq!(total(&game), 400);
}

#[test]
fn three_way_side_pot() {
    // Player 0 has the best hand, player 1 the next, player 2 the worst.
    let mut game = table(&[50, 100, 200], vec![1, 2, 0]);
    assert!(game.begin());
    assert!(game.deal(&cards(&format!("{} As Ah Ks Kh Qs Qh", BOARD))));
    assert_eq!(game.seat_order, vec![2, 0, 1]);
    // Player 0 is the small blind, player 1 the big blind.
    assert_eq!(game.players[0].street_contrib, 1);
    assert_eq!(game.players[1].street_contrib, 2);
    assert_eq!(game.to_act, 2);
    act(&mut game, Action::Call);
    act(&mut game, Action::Call);
    act(&mut game, Action::Check);
    assert_eq!(game.street, Street::Flop);
    assert_eq!(game.to_act, 0);

    act(&mut game, Action::AllIn);
    assert!(game.players[0].all_in);
    assert_eq!(game.players[0].street_contrib, 48);
    act(&mut game, Action::Call);
    assert_eq!(game.players[1].street_contrib, 48);
    act(&mut game, Action::AllIn);
    assert_eq!(game.players[2].street_contrib, 198);
    assert_eq!(game.to_act, 1);
    game.take_events();
    act(&mut game, Action::AllIn);

    // Nobody can act any more: the hand is paid out at once.
    assert_eq!(game.phase, Phase::HandComplete);
    assert_eq!(game.players[0].chips, 150);
    assert_eq!(game.players[1].chips, 100);
    assert_eq!(game.players[2].chips, 100);
    assert_eq!(total(&game), 350);
    let out = game.take_events();
    let (reason, payouts, shown) = payout_of(&out).unwrap();
    assert_eq!(reason, PayoutReason::Showdown);
    assert_eq!(payouts, vec![(0, 150), (1, 100), (2, 100)]);
    assert_eq!(
        shown,
        vec![
            (0, (card("As"), card("Ah"))),
            (1, (card("Ks"), card("Kh"))),
            (2, (card("Qs"), card("Qh"))),
        ]
    );
    for p in &game.players {
        assert_eq!(p.street_contrib, 0);
        assert_eq!(p.hand_contrib, 0);
        assert!(!p.all_in);
    }
}

#[test]
fn side_pot_checked_through_to_the_river() {
    let mut game = table(&[50, 100, 200], vec![1, 2, 0]);
    assert!(game.begin());
    assert!(game.deal(&cards(&format!("{} As Ah Ks Kh Qs Qh", BOARD))));
    act(&mut game, Action::Call);
    act(&mut game, Action::Call);
    act(&mut game, Action::Check);
    act(&mut game, Action::AllIn);
    act(&mut game, Action::Call);
    // Player 2 raises to 148 in this round, 150 in the hand.
    act(&mut game, Action::Bet(148));
    assert_eq!(game.current_bet, 148);
    assert_eq!(game.min_raise, 100);
    // Player 1 calls with all that is left.
    act(&mut game, Action::Call);
    assert!(game.players[1].all_in);
    assert_eq!(game.street, Street::Turn);
    // Only player 2 can act, and closes every round alone.
    assert_eq!(game.to_act, 2);
    assert!(game.players[2].has_option);
    act(&mut game, Action::Check);
    assert_eq!(game.street, Street::River);
    assert_eq!(game.to_act, 2);
    act(&mut game, Action::Check);
    assert_eq!(game.phase, Phase::HandComplete);
    assert_eq!(game.players[0].chips, 150);
    assert_eq!(game.players[1].chips, 100);
    assert_eq!(game.players[2].chips, 100);
}

#[test]
fn odd_chip_goes_left_of_the_button() {
    // The board plays: all three hold the same straight.
    let mut game = table(&[200, 200, 200], vec![0, 1, 2]);
    assert!(game.begin());
    assert!(game.deal(&cards("Ts Jd Qh Ks Ac 2s 3d 2h 3c 2d 3h")));
    assert_eq!(game.seat_order, vec![1, 2, 0]);
    // Small blind 2, big blind 0, player 1 on the button acts first.
    assert_eq!(game.to_act, 1);
    act(&mut game, Action::Bet(5));
    act(&mut game, Action::Call);
    act(&mut game, Action::Call);
    assert_eq!(game.street, Street::Flop);
    // Player 2 folds, the others check the hand down.
    assert_eq!(game.to_act, 2);
    act(&mut game, Action::Fold);
    for _ in 0..3 {
        act(&mut game, Action::Check);
        act(&mut game, Action::Check);
    }
    assert_eq!(game.phase, Phase::HandComplete);
    // 15 chips for two winners: 7 each, and the odd chip to player 0, who
    // sits nearer to the left of the button than player 1, the button.
    assert_eq!(game.players[0].chips, 203);
    assert_eq!(game.players[1].chips, 202);
    assert_eq!(game.players[2].chips, 195);
}

#[test]
fn big_blind_has_the_option() {
    let mut game = table(&[200, 200, 200], vec![0, 1, 2]);
    assert!(game.begin());
    assert!(game.deal(&cards(&format!("{} As Ah Ks Kh Qs Qh", BOARD))));
    // Button 1, small blind 2, big blind 0.
    assert!(game.players[0].has_option);
    act(&mut game, Action::Call);
    act(&mut game, Action::Call);
    // All have limped; the round lasts until the big blind has acted.
    assert_eq!(game.street, Street::PreFlop);
    assert_eq!(game.to_act, 0);
    act(&mut game, Action::Check);
    assert_eq!(game.street, Street::Flop);
    assert_eq!(game.current_bet, 0);
    for p in &game.players {
        assert_eq!(p.hand_contrib, 2);
    }
}

#[test]
fn big_blind_raises_from_the_option() {
    let mut game = table(&[200, 200, 200], vec![0, 1, 2]);
    assert!(game.begin());
    assert!(game.deal(&cards(&format!("{} As Ah Ks Kh Qs Qh", BOARD))));
    act(&mut game, Action::Call);
    act(&mut game, Action::Call);
    assert_eq!(game.to_act, 0);
    act(&mut game, Action::Bet(6));
    assert_eq!(game.street, Street::PreFlop);
    assert_eq!(game.current_bet, 8);
    assert_eq!(game.min_raise, 6);
    assert!(!game.players[0].has_option);
    // The action returns to the player after the big blind, and goes on to
    // the small blind.
    assert_eq!(game.to_act, 1);
    act(&mut game, Action::Call);
    assert_eq!(game.to_act, 2);
    act(&mut game, Action::Call);
    assert_eq!(game.street, Street::Flop);
}

#[test]
fn under_raise_becomes_the_minimum_raise() {
    let mut game = table(&[200, 200, 200], vec![0, 1, 2]);
    assert!(game.begin());
    assert!(game.deal(&cards(&format!("{} As Ah Ks Kh Qs Qh", BOARD))));
    act(&mut game, Action::Call);
    act(&mut game, Action::Call);
    act(&mut game, Action::Check);
    assert_eq!(game.street, Street::Flop);
    act(&mut game, Action::Bet(10));
    assert_eq!(game.current_bet, 10);
    assert_eq!(game.min_raise, 10);
    game.take_events();
    let actor = game.to_act;
    act(&mut game, Action::Bet(12));
    assert_eq!(game.players[actor].street_contrib, 20);
    assert_eq!(game.current_bet, 20);
    let out = game.take_events();
    assert_eq!(
        out[0].event,
        Event::MoveInfo { player_id: actor, move_type: MoveType::Bet, value: 20, hand_number: 1 }
    );
}

#[test]
fn elimination_and_game_over() {
    let mut game = table(&[10, 200, 200], vec![1, 2, 0]);
    assert!(game.begin());
    // Hand 1: player 0 goes all in with the worst hand against player 1.
    assert!(game.deal(&cards(&format!("{} Qs Qh As Ah 4s 5d", BOARD))));
    assert_eq!(game.to_act, 2);
    act(&mut game, Action::Fold);
    act(&mut game, Action::AllIn);
    game.take_events();
    act(&mut game, Action::Call);
    // Player 1 is the only one who can act and checks the hand down.
    assert_eq!(game.street, Street::Flop);
    for _ in 0..3 {
        assert_eq!(game.phase, Phase::InHand);
        assert_eq!(game.to_act, 1);
        act(&mut game, Action::Check);
    }
    assert_eq!(game.phase, Phase::HandComplete);
    assert!(game.players[0].eliminated);
    assert!(game.players[0].folded);
    assert_eq!(game.players[0].chips, 0);
    assert_eq!(game.players[1].chips, 210);
    let out = game.take_events();
    let gone: Vec<&Outbound> = out
        .iter()
        .filter(|o| matches!(o.event, Event::PlayerEliminatedInfo { .. }))
        .collect();
    assert_eq!(gone.len(), 1);
    assert_eq!(
        gone[0].event,
        Event::PlayerEliminatedInfo { eliminated_player: 0, hand_number: 1 }
    );
    // The player who is out is not told.
    assert_eq!(gone[0].recipients, vec![1, 2]);

    // Hand 2 is played by two: cards for two players are enough.
    assert!(game.deal(&cards(&format!("{} As Ah Ks Kh", BOARD))));
    assert_eq!(game.hand_number, 2);
    assert_eq!(game.players[0].hole_cards.len(), 2);
    assert_eq!(game.players[1].hole_cards, cards("As Ah"));
    assert_eq!(game.players[2].hole_cards, cards("Ks Kh"));
    let out = game.take_events();
    for o in &out {
        assert!(!o.recipients.contains(&0));
        assert!(!matches!(o.event, Event::PlayerEliminatedInfo { .. }));
    }
    // Player 2 goes all in and loses.
    let first = game.to_act;
    act(&mut game, Action::AllIn);
    assert_ne!(game.to_act, first);
    act(&mut game, Action::Call);
    for _ in 0..3 {
        assert_eq!(game.phase, Phase::InHand);
        act(&mut game, Action::Check);
    }
    assert_eq!(game.phase, Phase::GameOver);
    assert!(game.game_over());
    assert!(game.players[2].eliminated);
    assert_eq!(game.players[1].chips, 410);
    let out = game.take_events();
    let last = out.last().unwrap();
    assert_eq!(last.event, Event::GameOverInfo { winning_player: 1, hand_number: 2 });
    assert_eq!(last.recipients, vec![1]);
    assert_eq!(
        events_of(&out)
            .iter()
            .filter(|e| matches!(e, Event::PlayerEliminatedInfo { eliminated_player: 2, .. }))
            .count(),
        1
    );
    // Nothing is dealt after the end, and no round is announced.
    assert!(!game.deal(&cards(&format!("{} As Ah Ks Kh", BOARD))));
    act(&mut game, Action::Check);
    game.player_action(Action::Check);
    let out = game.take_events();
    assert!(out.is_empty());
}

#[test]
fn a_round_is_over_when_all_who_can_act_have_matched_without_option() {
    let mut game = table(&[200, 200, 200], vec![0, 1, 2]);
    assert!(game.begin());
    assert!(game.deal(&cards(&format!("{} As Ah Ks Kh Qs Qh", BOARD))));
    // The blinds are in: two players have not matched, one holds the option.
    assert!(!game.is_street_over());
    assert!(!game.is_hand_over());
    for p in game.players.iter_mut() {
        p.chips = 198;
        p.street_contrib = 2;
    }
    assert!(!game.is_street_over());
    game.players[0].has_option = false;
    assert!(game.is_street_over());
    for p in &game.players {
        if !p.folded && !p.all_in && !p.eliminated {
            assert_eq!(p.street_contrib, game.current_bet);
            assert!(!p.has_option);
        }
    }
    // Players who are out of the hand or all in do not keep a round open.
    game.players[1].street_contrib = 1;
    assert!(!game.is_street_over());
    game.players[1].folded = true;
    assert!(game.is_street_over());
    game.players[2].chips = 0;
    game.players[2].street_contrib = 1;
    game.players[2].all_in = true;
    game.players[2].has_option = true;
    assert!(game.is_street_over());
    // Two are left in the hand, one of whom can act.
    assert!(!game.is_hand_over());
    assert_eq!(game.num_live(), 2);
    assert!(game.anybody_able());
    game.street = Street::River;
    assert!(game.is_hand_over());
    game.street = Street::Flop;
    game.players[0].folded = true;
    assert!(game.is_hand_over());
    assert_eq!(game.num_in_play(), 3);
}

#[test]
fn the_turn_goes_round_the_table_past_those_who_cannot_act() {
    let mut game = table(&[200, 200, 200, 200], vec![3, 0, 1, 2]);
    assert!(game.begin());
    assert!(game.deal(&cards(&format!("{} As Ah Ks Kh Qs Qh Ts Th", BOARD))));
    assert_eq!(game.seat_order, vec![0, 1, 2, 3]);
    assert_eq!(game.next_player(0), 1);
    assert_eq!(game.next_player(3), 0);
    assert_eq!(game.prev_player(0), 3);
    assert_eq!(game.prev_player(2), 1);
    game.players[1].folded = true;
    game.players[2].all_in = true;
    game.players[2].street_contrib += game.players[2].chips;
    game.players[2].chips = 0;
    assert_eq!(game.next_player(0), 3);
    assert_eq!(game.prev_player(3), 0);
    assert_eq!(game.next_player(1), 3);
    game.players[3].folded = true;
    // Nobody else can act: the turn stays.
    assert_eq!(game.next_player(0), 0);
    assert_eq!(game.prev_player(0), 0);
    assert_eq!(game.active_players(), vec![0, 1, 2, 3]);
}
