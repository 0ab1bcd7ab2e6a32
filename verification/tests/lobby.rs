use poker_engine::action::{Action, Street};
use poker_engine::event::{Event, Outbound};
use poker_engine::game::{Game, Phase};

fn total(game: &Game) -> usize {
    game.players
        .iter()
        .map(|p| p.chips + p.street_contrib + p.hand_contrib)
        .sum()
}

fn is_seat_order(order: &[usize]) -> bool {
    let mut sorted = order.to_vec();
    sorted.sort();
    sorted == (0..order.len()).collect::<Vec<usize>>()
}

#[test]
fn a_new_table_is_in_the_lobby() {
    let game = Game::new(200);
    assert_eq!(game.phase, Phase::Lobby);
    assert!(!game.started());
    assert!(!game.game_over());
    assert!(!game.in_hand());
    assert_eq!(game.starting_stack, 200);
    assert_eq!(game.max_players, 10);
    assert_eq!(game.min_raise, 2);
    assert_eq!(game.current_bet, 0);
    assert_eq!(game.hand_number, 0);
    assert!(game.players.is_empty());
    assert!(game.seat_order.is_empty());
    assert!(game.outbox.is_empty());
    assert_eq!(game.total_chips(), 0);
    assert_eq!(game.button_player(), None);
}

#[test]
fn settings_change_in_the_lobby_only() {
    let mut game = Game::new(200);
    assert!(game.set_starting_stack(500));
    assert_eq!(game.starting_stack, 500);
    assert!(game.set_player_limit(3));
    assert_eq!(game.max_players, 3);
    assert!(game.add_player("ann", "http://a"));
    assert!(game.add_player("bob", "http://b"));
    assert_eq!(game.players[0].chips, 500);
    // The limit cannot go below the players who have joined.
    assert!(!game.set_player_limit(1));
    assert_eq!(game.max_players, 3);
    assert!(game.set_player_limit(2));
    assert!(game.start());
    assert!(!game.set_starting_stack(100));
    assert!(!game.set_player_limit(5));
    assert_eq!(game.starting_stack, 500);
    assert_eq!(game.max_players, 2);
}

#[test]
fn players_join_until_the_table_is_full() {
    let mut game = Game::new(200);
    assert!(game.set_player_limit(3));
    assert!(game.add_player("ann", "http://a"));
    assert!(game.add_player("bob", "http://b"));
    assert!(game.add_player("cat", "http://c"));
    assert!(!game.add_player("dan", "http://d"));
    assert_eq!(game.players.len(), 3);
    assert_eq!(game.players[0].display_name, "ann");
    assert_eq!(game.players[1].display_name, "bob");
    assert_eq!(game.players[2].address, "http://c");
    assert!(is_seat_order(&game.seat_order));
    assert_eq!(game.total_chips(), 600);
    assert_eq!(total(&game), 600);
}

#[test]
fn a_deck_serves_no_more_than_23_players() {
    let mut game = Game::new(10);
    assert!(game.set_player_limit(40));
    for i in 0..23 {
        assert!(game.add_player(&format!("p{}", i), "http://x"), "player {}", i);
        assert!(is_seat_order(&game.seat_order));
    }
    assert!(!game.add_player("one too many", "http://x"));
    assert_eq!(game.players.len(), 23);
    assert!(game.start());
    assert_eq!(game.phase, Phase::InHand);
    for p in &game.players {
        assert_eq!(p.hole_cards.len(), 2);
    }
}

#[test]
fn the_chips_must_fit_a_machine_number() {
    let mut game = Game::new(usize::MAX - 5);
    assert!(game.add_player("ann", "http://a"));
    assert!(!game.add_player("bob", "http://b"));
    assert!(game.set_starting_stack(5));
    assert!(game.add_player("bob", "http://b"));
    assert!(game.set_starting_stack(1));
    assert!(!game.add_player("cat", "http://c"));
    assert_eq!(game.total_chips(), usize::MAX);
}

#[test]
fn nobody_joins_after_the_start() {
    let mut game = Game::new(200);
    assert!(game.add_player("ann", "http://a"));
    assert!(game.add_player("bob", "http://b"));
    assert!(game.start());
    assert!(!game.add_player("cat", "http://c"));
    assert!(!game.seat("cat", "http://c", 5, vec![0, 1, 2]));
    assert_eq!(game.players.len(), 2);
}

#[test]
fn a_seat_order_must_hold_every_player_once() {
    let mut game = Game::new(200);
    assert!(!game.seat("ann", "http://a", 1, vec![]));
    assert!(!game.seat("ann", "http://a", 1, vec![1]));
    assert!(!game.seat("ann", "http://a", 1, vec![0, 0]));
    assert!(game.seat("ann", "http://a", 1, vec![0]));
    assert!(!game.seat("bob", "http://b", 2, vec![0, 0]));
    assert!(!game.seat("bob", "http://b", 2, vec![0, 2]));
    assert!(!game.seat("bob", "http://b", 2, vec![0, 1, 2]));
    assert!(game.seat("bob", "http://b", 2, vec![1, 0]));
    assert_eq!(game.seat_order, vec![1, 0]);
    assert_eq!(game.players[1].secret_id, 2);
    assert_eq!(game.players[1].chips, 200);
}

#[test]
fn the_game_starts_with_two_players_with_chips() {
    let mut game = Game::new(200);
    assert!(!game.start());
    assert!(game.add_player("ann", "http://a"));
    assert!(!game.start());
    assert!(!game.begin());
    assert_eq!(game.phase, Phase::Lobby);
    assert!(game.outbox.is_empty());
    assert!(game.add_player("bob", "http://b"));
    game.players[0].chips = 0;
    assert!(!game.begin());
    game.players[0].chips = 200;
    assert!(game.start());
    assert!(game.started());
    assert!(!game.start());
    assert!(!game.begin());
}

#[test]
fn the_start_tells_every_player_the_seat_and_all_the_table() {
    let mut game = Game::new(200);
    assert!(game.seat("ann", "http://a", 11, vec![0]));
    assert!(game.seat("bob", "http://b", 22, vec![0, 1]));
    assert!(game.seat("cat", "http://c", 33, vec![2, 0, 1]));
    assert!(game.begin());
    assert_eq!(game.phase, Phase::HandComplete);
    assert!(game.awaits_deal());
    let out = game.take_events();
    assert!(game.outbox.is_empty());
    assert_eq!(out.len(), 4);
    assert_eq!(
        out[0],
        Outbound {
            recipients: vec![0],
            event: Event::PlayerPrivateInfo { ingame_id: 0, secret_id: 11 },
        }
    );
    assert_eq!(
        out[1],
        Outbound {
            recipients: vec![1],
            event: Event::PlayerPrivateInfo { ingame_id: 1, secret_id: 22 },
        }
    );
    assert_eq!(
        out[2],
        Outbound {
            recipients: vec![2],
            event: Event::PlayerPrivateInfo { ingame_id: 2, secret_id: 33 },
        }
    );
    assert_eq!(
        out[3],
        Outbound {
            recipients: vec![0, 1, 2],
            event: Event::GameTableInfo {
                starting_stack: 200,
                seat_order: vec![2, 0, 1],
                button_player: 2,
                display_names: vec![
                    (2, "cat".to_string()),
                    (0, "ann".to_string()),
                    (1, "bob".to_string()),
                ],
            },
        }
    );
}

#[test]
fn the_start_deals_the_first_hand() {
    let mut game = Game::new(200);
    for name in ["ann", "bob", "cat", "dan"] {
        assert!(game.add_player(name, "http://x"));
    }
    let seats = game.seat_order.clone();
    assert!(game.start());
    assert_eq!(game.phase, Phase::InHand);
    assert_eq!(game.hand_number, 1);
    assert_eq!(game.street, Street::PreFlop);
    assert_eq!(game.board.len(), 5);
    assert_eq!(game.current_bet, 2);
    // The button has moved one seat on.
    assert_eq!(game.button_player(), Some(seats[1]));
    assert_eq!(game.seat_order, vec![seats[1], seats[2], seats[3], seats[0]]);
    assert_eq!(game.players[seats[2]].street_contrib, 1);
    assert_eq!(game.players[seats[3]].street_contrib, 2);
    assert!(game.players[seats[3]].has_option);
    assert_eq!(game.to_act, seats[0]);
    let mut dealt = game.board.clone();
    for p in &game.players {
        assert_eq!(p.hole_cards.len(), 2);
        dealt.extend(p.hole_cards.iter().cloned());
    }
    assert!(poker_engine::card::cards_ok(&dealt));
    assert_eq!(total(&game), 800);
}

#[test]
fn messages_of_a_deal_come_in_order() {
    let mut game = Game::new(200);
    assert!(game.seat("ann", "http://a", 11, vec![0]));
    assert!(game.seat("bob", "http://b", 22, vec![0, 1]));
    assert!(game.seat("cat", "http://c", 33, vec![0, 1, 2]));
    assert!(game.begin());
    game.take_events();
    let cards = poker_engine::deck::draw_hand(3);
    assert!(game.deal(&cards));
    let out = game.take_events();
    // Button 1, small blind 2, big blind 0, then player 1 acts.
    let kinds: Vec<String> = out
        .iter()
        .map(|o| match &o.event {
            Event::HoleCardInfo { .. } => format!("hole {:?}", o.recipients),
            Event::MoveInfo { player_id, value, .. } => format!("move {} {}", player_id, value),
            Event::ToMoveInfo { player_id, .. } => format!("turn {}", player_id),
            Event::StreetInfo { street, board_cards_revealed, button_player, .. } => {
                format!("street {:?} {} {}", street, board_cards_revealed.len(), button_player)
            }
            other => format!("{:?}", other),
        })
        .collect();
    assert_eq!(
        kinds,
        vec![
            "hole [0]",
            "hole [1]",
            "hole [2]",
            "move 2 1",
            "turn 0",
            "move 0 2",
            "turn 1",
            "street PreFlop 0 1",
            "turn 1",
        ]
    );
    assert_eq!(
        out[0].event,
        Event::HoleCardInfo { hole_cards: (cards[5], cards[6]), hand_number: 1 }
    );
    assert_eq!(
        out[2].event,
        Event::HoleCardInfo { hole_cards: (cards[9], cards[10]), hand_number: 1 }
    );
    assert_eq!(game.board, cards[0..5].to_vec());
    for o in &out[3..] {
        assert_eq!(o.recipients, vec![0, 1, 2]);
    }
}

#[test]
fn rounds_reveal_the_board_step_by_step() {
    let mut game = Game::new(200);
    assert!(game.seat("ann", "http://a", 11, vec![0]));
    assert!(game.seat("bob", "http://b", 22, vec![0, 1]));
    assert!(game.begin());
    let cards = poker_engine::deck::draw_hand(2);
    assert!(game.deal(&cards));
    game.apply_action(Action::Call);
    game.take_events();
    let mut revealed = Vec::new();
    for street in [Street::Flop, Street::Turn, Street::River] {
        game.apply_action(Action::Check);
        if street != Street::Flop {
            game.apply_action(Action::Check);
        }
        assert_eq!(game.street, street);
        for o in game.take_events() {
            if let Event::StreetInfo { street: told, board_cards_revealed, hand_number, .. } =
                o.event
            {
                assert_eq!(told, street);
                assert_eq!(hand_number, 1);
                revealed.extend(board_cards_revealed);
            }
        }
        assert_eq!(game.street_cards().len(), if street == Street::Flop { 3 } else { 1 });
    }
    assert_eq!(revealed, cards[0..5].to_vec());
}

#[test]
fn a_deal_needs_enough_different_cards() {
    let mut game = Game::new(200);
    assert!(game.seat("ann", "http://a", 11, vec![0]));
    assert!(game.seat("bob", "http://b", 22, vec![0, 1]));
    let good = poker_engine::deck::draw_hand(2);
    // Not before the start.
    assert!(!game.deal(&good));
    assert!(game.begin());
    assert!(!game.deal(&good[0..8].to_vec()));
    let mut twice = good.clone();
    twice[8] = twice[0];
    assert!(!game.deal(&twice));
    let mut strange = good.clone();
    strange[3].value = 13;
    assert!(!game.deal(&strange));
    assert_eq!(game.phase, Phase::HandComplete);
    assert_eq!(game.hand_number, 0);
    assert!(game.deal(&good));
    // Not during a hand.
    assert!(!game.deal(&good));
    assert_eq!(game.hand_number, 1);
}

#[test]
fn requests_outside_a_hand_do_nothing() {
    let mut game = Game::new(200);
    assert!(game.add_player("ann", "http://a"));
    assert!(game.add_player("bob", "http://b"));
    game.apply_action(Action::AllIn);
    game.player_action(Action::Bet(10));
    assert_eq!(game.phase, Phase::Lobby);
    assert_eq!(game.players[0].chips, 200);
    assert_eq!(game.players[1].chips, 200);
    assert!(game.outbox.is_empty());
}

#[test]
fn blinds_that_put_both_players_all_in_end_the_hand_at_once() {
    let mut game = Game::new(1);
    assert!(game.seat("ann", "http://a", 11, vec![0]));
    assert!(game.seat("bob", "http://b", 22, vec![0, 1]));
    assert!(game.begin());
    // Player 0 holds the better hand.
    let board = "2c 7d 9h Js 3c";
    let cards: Vec<poker_engine::card::Card> = format!("{} As Ah Ks Kh", board)
        .split_whitespace()
        .map(|t| {
            let b = t.as_bytes();
            poker_engine::card::Card {
                value: "23456789TJQKA".find(b[0] as char).unwrap() as u8,
                suit: "schd".find(b[1] as char).unwrap() as u8,
            }
        })
        .collect();
    assert!(game.deal(&cards));
    assert_eq!(game.phase, Phase::GameOver);
    assert_eq!(game.players[0].chips, 2);
    assert_eq!(game.players[1].chips, 0);
    assert!(game.players[1].eliminated);
    let out = game.take_events();
    assert!(matches!(
        out.last().unwrap().event,
        Event::GameOverInfo { winning_player: 0, hand_number: 1 }
    ));
}

#[test]
fn a_game_of_callers_keeps_its_chips_and_comes_to_an_end() {
    let mut game = Game::new(20);
    for name in ["ann", "bob", "cat", "dan", "eve"] {
        assert!(game.add_player(name, "http://x"));
    }
    assert!(game.start());
    let mut last_hand = 0;
    let mut moves = 0;
    while !game.game_over() && moves < 200_000 {
        assert_eq!(game.phase, Phase::InHand);
        assert!(game.players[game.to_act].is_able());
        // Now and then a player goes all in, so that stacks change hands.
        let request = if moves % 7 == 3 { Action::AllIn } else { Action::Call };
        game.player_action(request);
        moves += 1;
        assert!(game.is_well_formed());
        assert_eq!(total(&game), 100);
        assert!(game.hand_number >= last_hand);
        last_hand = game.hand_number;
        let mut hand = 0;
        for o in game.take_events() {
            let of = match o.event {
                Event::HoleCardInfo { hand_number, .. }
                | Event::StreetInfo { hand_number, .. }
                | Event::ToMoveInfo { hand_number, .. }
                | Event::MoveInfo { hand_number, .. }
                | Event::PayoutInfo { hand_number, .. }
                | Event::PlayerEliminatedInfo { hand_number, .. }
                | Event::GameOverInfo { hand_number, .. } => hand_number,
                _ => 0,
            };
            assert!(of >= hand);
            assert!(of <= game.hand_number);
            hand = of;
        }
        for p in &game.players {
            if p.eliminated {
                assert!(p.folded);
                assert_eq!(p.chips, 0);
            }
            if p.all_in {
                assert_eq!(p.chips, 0);
            }
            if !p.folded && !p.all_in && !p.eliminated {
                assert!(p.street_contrib <= game.current_bet);
            }
        }
    }
    assert!(game.game_over());
    let winners: Vec<usize> = (0..5).filter(|&i| game.players[i].chips > 0).collect();
    assert_eq!(winners.len(), 1);
    assert_eq!(game.players[winners[0]].chips, 100);
}

#[test]
fn a_table_tells_whether_it_is_well_formed() {
    let mut game = Game::new(200);
    assert!(game.is_well_formed());
    assert!(game.add_player("ann", "http://a"));
    assert!(game.add_player("bob", "http://b"));
    assert!(game.add_player("cat", "http://c"));
    assert!(game.is_well_formed());
    assert!(game.start());
    assert!(game.is_well_formed());
    game.player_action(Action::Bet(10));
    assert!(game.is_well_formed());

    // A seat that occurs twice.
    let seats = game.seat_order.clone();
    game.seat_order[0] = seats[1];
    assert!(!game.is_well_formed());
    game.seat_order = seats;
    assert!(game.is_well_formed());
    // A player who is all in with chips behind.
    game.players[0].all_in = true;
    assert!(!game.is_well_formed());
    game.players[0].all_in = false;
    // A player who is out of the game with chips.
    game.players[1].eliminated = true;
    assert!(!game.is_well_formed());
    game.players[1].eliminated = false;
    assert!(game.is_well_formed());
    // More chips than a machine number holds.
    let chips = game.players[2].chips;
    game.players[2].chips = usize::MAX;
    assert!(!game.is_well_formed());
    game.players[2].chips = chips;
    // A card that two players hold.
    let held = game.players[0].hole_cards[0];
    let other = game.players[1].hole_cards[0];
    game.players[1].hole_cards[0] = held;
    assert!(game.is_well_formed());
    game.players[1].hole_cards[1] = held;
    assert!(!game.is_well_formed());
    game.players[1].hole_cards[0] = other;
    assert!(game.is_well_formed() || held == other);
    game.board.pop();
    assert!(!game.is_well_formed());
}

#[test]
fn seats_are_drawn_at_random() {
    let joined: Vec<usize> = (0..6).collect();
    let mut shuffled = 0;
    for _ in 0..20 {
        let mut game = Game::new(200);
        for name in ["a", "b", "c", "d", "e", "f"] {
            assert!(game.add_player(name, "http://x"));
            assert!(is_seat_order(&game.seat_order));
        }
        if game.seat_order != joined {
            shuffled += 1;
        }
    }
    assert!(shuffled > 0);
}

/// A small generator of numbers for the games below, the same on every
/// run.
struct Dice(u64);

impl Dice {
    fn roll(&mut self, sides: u64) -> u64 {
        self.0 = self.0.wrapping_mul(6364136223846793005).wrapping_add(1442695040888963407);
        (self.0 >> 33) % sides
    }
}

#[test]
fn games_of_all_kinds_of_requests_stay_well_formed() {
    let mut dice = Dice(2024);
    for round in 0..60 {
        let seats = 2 + (round % 8) as usize;
        let stack = 3 + dice.roll(60) as usize;
        let mut game = Game::new(stack);
        for i in 0..seats {
            assert!(game.add_player(&format!("p{}", i), "http://x"));
        }
        assert!(game.start());
        let chips = seats * stack;
        let mut moves = 0;
        while !game.game_over() && moves < 20_000 {
            assert_eq!(game.phase, Phase::InHand);
            let actor = game.to_act;
            assert!(game.players[actor].is_able());
            assert!(game.players[actor].chips > 0);
            let request = match dice.roll(10) {
                0 => Action::Fold,
                1 | 2 => Action::Check,
                3 | 4 | 5 => Action::Call,
                6 => Action::AllIn,
                7 => Action::Bet(0),
                _ => Action::Bet(dice.roll(2 * stack as u64 + 3) as usize),
            };
            let before = game.current_bet;
            let least = game.min_raise;
            let hand = game.hand_number;
            game.player_action(request);
            moves += 1;
            assert!(game.is_well_formed(), "after {:?}", request);
            assert_eq!(total(&game), chips);
            if game.in_hand() && game.hand_number == hand && game.current_bet > before {
                // A raise is by the least raise, or all that the player had.
                assert!(game.current_bet - before >= least || game.players[actor].all_in);
            }
            for p in &game.players {
                assert!(p.street_contrib <= game.current_bet);
            }
            game.take_events();
        }
        assert!(game.game_over(), "{} players with {} chips each", seats, stack);
    }
}
