//! The strength of a poker hand, as the hand evaluator of `rs_poker` sees it.

use crate::card::{all_valid, distinct, Card};
use vstd::prelude::*;

verus! {

/// The class of a hand and, within the class, a number that grows with the
/// hand's strength. Classes are listed from the weakest to the strongest.
#[derive(Clone, Copy, Debug, PartialEq, Eq, Structural)]
pub enum HandRank {
    HighCard(u32),
    OnePair(u32),
    TwoPair(u32),
    ThreeOfAKind(u32),
    Straight(u32),
    Flush(u32),
    FullHouse(u32),
    FourOfAKind(u32),
    StraightFlush(u32),
}

impl HandRank {
    /// The place of the class in the list, from 0.
    pub open spec fn class(self) -> int {
        match self {
            HandRank::HighCard(_) => 0,
            HandRank::OnePair(_) => 1,
            HandRank::TwoPair(_) => 2,
            HandRank::ThreeOfAKind(_) => 3,
            HandRank::Straight(_) => 4,
            HandRank::Flush(_) => 5,
            HandRank::FullHouse(_) => 6,
            HandRank::FourOfAKind(_) => 7,
            HandRank::StraightFlush(_) => 8,
        }
    }

    /// The number that orders hands of one class.
    pub open spec fn detail(self) -> int {
        match self {
            HandRank::HighCard(v) => v as int,
            HandRank::OnePair(v) => v as int,
            HandRank::TwoPair(v) => v as int,
            HandRank::ThreeOfAKind(v) => v as int,
            HandRank::Straight(v) => v as int,
            HandRank::Flush(v) => v as int,
            HandRank::FullHouse(v) => v as int,
            HandRank::FourOfAKind(v) => v as int,
            HandRank::StraightFlush(v) => v as int,
        }
    }

    /// One number for the whole order: a hand beats another exactly when its
    /// strength is greater, and ties with it exactly when the strengths are
    /// equal. The class decides first, the detail second.
    pub open spec fn strength(self) -> int {
        self.class() * 0x1_0000_0000 + self.detail()
    }

    pub fn score(&self) -> (s: u64)
        ensures
            s == self.strength(),
    {
        match *self {
            HandRank::HighCard(v) => v as u64,
            HandRank::OnePair(v) => 0x1_0000_0000u64 + v as u64,
            HandRank::TwoPair(v) => 0x2_0000_0000u64 + v as u64,
            HandRank::ThreeOfAKind(v) => 0x3_0000_0000u64 + v as u64,
            HandRank::Straight(v) => 0x4_0000_0000u64 + v as u64,
            HandRank::Flush(v) => 0x5_0000_0000u64 + v as u64,
            HandRank::FullHouse(v) => 0x6_0000_0000u64 + v as u64,
            HandRank::FourOfAKind(v) => 0x7_0000_0000u64 + v as u64,
            HandRank::StraightFlush(v) => 0x8_0000_0000u64 + v as u64,
        }
    }
}

/// Two hands tie only where they have the same rank: ranks of the same
/// strength are the same rank.
pub proof fn law_same_strength_same_rank(a: HandRank, b: HandRank)
    requires
        a.strength() == b.strength(),
    ensures
        a == b,
{
}

/// Cards that the evaluator can rank: five to seven cards of the deck, no
/// card twice.
pub open spec fn rankable(cards: Seq<Card>) -> bool {
    5 <= cards.len() <= 7 && all_valid(cards) && distinct(cards)
}

/// The rank that the evaluator of `rs_poker` gives to the best five-card hand
/// among the cards.
pub uninterp spec fn hand_rank(cards: Seq<Card>) -> HandRank;

/// A `Hand` of `rs_poker`: cards that are ranked together.
#[verifier::external_body]
pub struct PokerHand {
    hand: rs_poker::core::Hand,
}

/// The cards of a hand, in the order in which it was made of them.
pub uninterp spec fn hand_cards(hand: PokerHand) -> Seq<Card>;

/// `Hand::new_with_cards` of `rs_poker`: a hand of the cards given, each
/// with the value and the suit of its numbers.
#[verifier::external_body]
pub(crate) fn hand_of(cards: &Vec<Card>) -> (hand: PokerHand)
    requires
        all_valid(cards@),
    ensures
        hand_cards(hand) == cards@,
{
    let held = cards.iter().map(|c| rs_poker::core::Card {
        value: rs_poker::core::Value::from_u8(c.value),
        suit: rs_poker::core::Suit::from_u8(c.suit),
    });
    PokerHand { hand: rs_poker::core::Hand::new_with_cards(held.collect()) }
}

/// `Rankable::rank` of `rs_poker` on a `Hand`: the rank of the best five
/// cards of the hand. The evaluator computes it from the cards alone, so the
/// result is `hand_rank` of the cards. It counts up to four cards of a value
/// and expects a fifth card beside four of a kind or two pairs, which five
/// to seven different cards of the deck always give.
#[verifier::external_body]
pub(crate) fn rank_hand(hand: &PokerHand) -> (rank: HandRank)
    requires
        rankable(hand_cards(*hand)),
    ensures
        rank == hand_rank(hand_cards(*hand)),
{
    match rs_poker::core::Rankable::rank(&hand.hand) {
        rs_poker::core::Rank::HighCard(v) => HandRank::HighCard(v),
        rs_poker::core::Rank::OnePair(v) => HandRank::OnePair(v),
        rs_poker::core::Rank::TwoPair(v) => HandRank::TwoPair(v),
        rs_poker::core::Rank::ThreeOfAKind(v) => HandRank::ThreeOfAKind(v),
        rs_poker::core::Rank::Straight(v) => HandRank::Straight(v),
        rs_poker::core::Rank::Flush(v) => HandRank::Flush(v),
        rs_poker::core::Rank::FullHouse(v) => HandRank::FullHouse(v),
        rs_poker::core::Rank::FourOfAKind(v) => HandRank::FourOfAKind(v),
        rs_poker::core::Rank::StraightFlush(v) => HandRank::StraightFlush(v),
    }
}

/// The rank of the best five-card hand among the cards.
pub fn rank_cards(cards: &Vec<Card>) -> (rank: HandRank)
    requires
        rankable(cards@),
    ensures
        rank == hand_rank(cards@),
{
    let hand = hand_of(cards);
    rank_hand(&hand)
}

} // verus!
