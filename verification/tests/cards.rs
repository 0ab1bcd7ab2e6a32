use poker_engine::card::{card_to_string, cards_ok, Card};
use poker_engine::deck::{
    deal_cards, deal_community, deal_hole, draw_hand, shuffled_deck, MAX_SEATS,
};
use poker_engine::player::Player;
use poker_engine::rank::{rank_cards, HandRank};

fn card(text: &str) -> Card {
    let bytes = text.as_bytes();
    let value = "23456789TJQKA".find(bytes[0] as char).unwrap() as u8;
    let suit = "schd".find(bytes[1] as char).unwrap() as u8;
    Card { value, suit }
}

fn cards(texts: &str) -> Vec<Card> {
    texts.split_whitespace().map(card).collect()
}

#[test]
fn card_text_is_value_then_suit() {
    assert_eq!(card_to_string(&Card { value: 12, suit: 2 }), "Ah");
    assert_eq!(card_to_string(&Card { value: 0, suit: 1 }), "2c");
    assert_eq!(card_to_string(&Card { value: 8, suit: 0 }), "Ts");
    assert_eq!(card_to_string(&Card { value: 11, suit: 3 }), "Kd");
    assert_eq!(card_to_string(&Card { value: 9, suit: 2 }), "Jh");
    assert_eq!(card_to_string(&Card { value: 10, suit: 0 }), "Qs");
}

#[test]
fn card_text_is_that_of_the_evaluator() {
    for value in 0..13u8 {
        for suit in 0..4u8 {
            let theirs = rs_poker::core::Card {
                value: rs_poker::core::Value::from_u8(value),
                suit: rs_poker::core::Suit::from_u8(suit),
            };
            assert_eq!(card_to_string(&Card { value, suit }), theirs.to_string());
            assert_eq!(theirs.value as u8, value);
            assert_eq!(theirs.suit as u8, suit);
        }
    }
}

#[test]
fn cards_of_the_deck_each_once() {
    assert!(cards_ok(&cards("As Kd 2c")));
    assert!(cards_ok(&Vec::new()));
    assert!(!cards_ok(&cards("As Kd As")));
    assert!(!cards_ok(&vec![Card { value: 13, suit: 0 }]));
    assert!(!cards_ok(&vec![Card { value: 0, suit: 4 }]));
    assert!(Card { value: 12, suit: 3 }.is_valid());
    assert!(!Card { value: 12, suit: 4 }.is_valid());
}

#[test]
fn ranks_of_known_hands() {
    assert!(matches!(rank_cards(&cards("As Ks Qs Js Ts 2d 3c")), HandRank::StraightFlush(_)));
    assert!(matches!(rank_cards(&cards("As Ad Ac Ah Ts 2d 3c")), HandRank::FourOfAKind(_)));
    assert!(matches!(rank_cards(&cards("As Ad Ac Kh Ks 2d 3c")), HandRank::FullHouse(_)));
    assert!(matches!(rank_cards(&cards("As 9s 7s 4s 2s Kd Kc")), HandRank::Flush(_)));
    assert!(matches!(rank_cards(&cards("9s 8d 7c 6h 5s Kd Kc")), HandRank::Straight(_)));
    assert!(matches!(rank_cards(&cards("9s 9d 9c 6h 5s Kd 2c")), HandRank::ThreeOfAKind(_)));
    assert!(matches!(rank_cards(&cards("9s 9d 6c 6h 5s Kd 2c")), HandRank::TwoPair(_)));
    assert!(matches!(rank_cards(&cards("9s 9d 7c 6h 4s Kd 2c")), HandRank::OnePair(_)));
    assert!(matches!(rank_cards(&cards("9s 8d 7c 6h 4s Kd 2c")), HandRank::HighCard(_)));
    assert!(matches!(rank_cards(&cards("9s 8d 7c 6h 4s")), HandRank::HighCard(_)));
}

#[test]
fn rank_is_that_of_the_evaluator() {
    let theirs = rs_poker::core::Rankable::rank(
        &rs_poker::core::Hand::new_from_str("2h2d8d8sKd6sTh").unwrap(),
    );
    let ours = rank_cards(&cards("2h 2d 8d 8s Kd 6s Th"));
    match (theirs, ours) {
        (rs_poker::core::Rank::TwoPair(a), HandRank::TwoPair(b)) => assert_eq!(a, b),
        other => panic!("ranks differ: {:?}", other),
    }
}

#[test]
fn scores_order_the_hands() {
    let order = [
        "9s 8d 7c 6h 4s Kd 2c",
        "9s 8d 7c 6h 4s Ad 2c",
        "2s 2d 7c 6h 4s Kd 3c",
        "9s 9d 7c 6h 4s Kd 2c",
        "9s 9d 6c 6h 5s Kd 2c",
        "9s 9d 9c 6h 5s Kd 2c",
        "5s 4d 3c 2h As Kd Kc",
        "9s 8d 7c 6h 5s Kd Kc",
        "As 9s 7s 4s 2s Kd Kc",
        "As Ad Ac Kh Ks 2d 3c",
        "As Ad Ac Ah Ts 2d 3c",
        "5s 4s 3s 2s As Kd Kc",
        "As Ks Qs Js Ts 2d 3c",
    ];
    for i in 1..order.len() {
        let weaker = rank_cards(&cards(order[i - 1])).score();
        let stronger = rank_cards(&cards(order[i])).score();
        assert!(weaker < stronger, "{} against {}", order[i - 1], order[i]);
    }
    assert_eq!(HandRank::HighCard(7).score(), 7);
    assert_eq!(HandRank::OnePair(7).score(), 0x1_0000_0007);
    assert_eq!(HandRank::StraightFlush(9).score(), 0x8_0000_0009);
    assert_eq!(HandRank::Flush(u32::MAX).score(), 0x5_ffff_ffff);
}

#[test]
fn suits_do_not_order_hands() {
    let spades = rank_cards(&cards("As Kd 9c 6h 4s 3d 2c"));
    let hearts = rank_cards(&cards("Ah Ks 9d 6c 4h 3s 2d"));
    assert_eq!(spades, hearts);
    assert_eq!(spades.score(), hearts.score());
}

#[test]
fn a_player_ranks_hole_cards_with_the_board() {
    let mut player = Player::with_secret("ann".to_string(), "here".to_string(), 100, 7);
    assert!(player.hole_cards.is_empty());
    player.folded = true;
    player.give_hand(&cards("As Ah"));
    assert_eq!(player.hole_cards, cards("As Ah"));
    assert!(!player.folded);
    assert_eq!(player.chips, 100);
    let rank = player.get_rank(&cards("Ad Ac Ks Kd 2c"));
    assert!(matches!(rank, HandRank::FourOfAKind(_)));
    assert_eq!(rank, rank_cards(&cards("Ad Ac Ks Kd 2c As Ah")));
    let rank = player.get_rank(&cards("Qd Jc Ts 3d 2c"));
    assert!(matches!(rank, HandRank::OnePair(_)));
}

#[test]
fn a_new_player_has_a_stack_and_a_token() {
    let ann = Player::new("ann".to_string(), "http://a".to_string(), 150);
    let bob = Player::new("bob".to_string(), "http://b".to_string(), 150);
    assert_eq!(ann.chips, 150);
    assert_eq!(ann.display_name, "ann");
    assert_eq!(ann.address, "http://a");
    assert_eq!(ann.street_contrib, 0);
    assert_eq!(ann.hand_contrib, 0);
    assert!(!ann.folded && !ann.all_in && !ann.eliminated && !ann.has_option);
    assert!(ann.is_live() && ann.is_able());
    assert_ne!(ann.secret_id, bob.secret_id);
}

#[test]
fn a_drawn_hand_is_of_different_cards() {
    for seats in [0, 2, 9, MAX_SEATS] {
        let drawn = draw_hand(seats);
        assert_eq!(drawn.len(), 5 + 2 * seats);
        assert!(cards_ok(&drawn));
    }
    // Two decks are hardly ever in the same order.
    let a = draw_hand(MAX_SEATS);
    let b = draw_hand(MAX_SEATS);
    let c = draw_hand(MAX_SEATS);
    assert!(a != b || b != c);
}

#[test]
fn a_deck_deals_52_different_cards_and_no_more() {
    let mut deck = shuffled_deck();
    let board = deal_community(&mut deck);
    assert_eq!(board.len(), 5);
    let hole = deal_hole(&mut deck);
    assert_eq!(hole.len(), 2);
    let rest = deal_cards(&mut deck, 100);
    assert_eq!(rest.len(), 45);
    let mut all = board.clone();
    all.extend(hole);
    all.extend(rest);
    assert!(cards_ok(&all));
    assert!(deal_cards(&mut deck, 3).is_empty());
    assert!(deal_cards(&mut deck, 0).is_empty());
}
