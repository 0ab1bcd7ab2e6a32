//! The shuffled deck of `rs_poker`, and dealing from it.

use crate::action::lesser;
use crate::card::{all_valid, distinct, Card};
use vstd::prelude::*;

verus! {

/// The most players that one deck serves: five board cards and two cards
/// each come to 51 cards.
pub const MAX_SEATS: usize = 23;

/// A `FlatDeck` of `rs_poker`: cards in an order, dealt from the end.
#[verifier::external_body]
pub struct ShuffledDeck {
    deck: rs_poker::core::FlatDeck,
}

/// The cards of a deck, bottom first: the last one is dealt next.
pub uninterp spec fn deck_cards(deck: ShuffledDeck) -> Seq<Card>;

/// `Deck::default`, `Flattenable::flatten` and `FlatDeck::shuffle` of
/// `rs_poker`: a full deck in an order drawn at random. The deck is built
/// from every value with every suit, which makes 52 different cards, and
/// shuffling only reorders them. The shuffle stops the program where the
/// system has no random numbers to seed its generator.
#[verifier::external_body]
pub(crate) fn create_deck() -> (deck: ShuffledDeck)
    ensures
        deck_cards(deck).len() == 52,
        all_valid(deck_cards(deck)),
        distinct(deck_cards(deck)),
{
    let mut deck = rs_poker::core::Flattenable::flatten(rs_poker::core::Deck::default());
    deck.shuffle();
    ShuffledDeck { deck }
}

/// `FlatDeck::deal` of `rs_poker`: takes the last card off the deck, or
/// nothing from an empty deck.
#[verifier::external_body]
pub(crate) fn deal_card(deck: &mut ShuffledDeck) -> (card: Option<Card>)
    ensures
        match card {
            Some(c) => deck_cards(*old(deck)).len() > 0 && c == deck_cards(*old(deck)).last()
                && deck_cards(*final(deck)) == deck_cards(*old(deck)).drop_last(),
            None => deck_cards(*old(deck)).len() == 0 && deck_cards(*final(deck)) == deck_cards(
                *old(deck),
            ),
        },
{
    deck.deck.deal().map(|c| Card { value: c.value as u8, suit: c.suit as u8 })
}

/// A full deck, shuffled: 52 different cards in an order drawn at random.
pub fn shuffled_deck() -> (deck: ShuffledDeck)
    ensures
        deck_cards(deck).len() == 52,
        all_valid(deck_cards(deck)),
        distinct(deck_cards(deck)),
{
    create_deck()
}

/// What `num` deals take off a deck, in the order dealt.
pub open spec fn dealt(cards: Seq<Card>, num: int) -> Seq<Card> {
    Seq::new(num as nat, |k: int| cards[cards.len() - 1 - k])
}

/// Deals `num` cards, or as many as the deck holds.
pub fn deal_cards(deck: &mut ShuffledDeck, num: usize) -> (cards: Vec<Card>)
    ensures
        cards@ == dealt(
            deck_cards(*old(deck)),
            lesser(num as int, deck_cards(*old(deck)).len() as int),
        ),
        deck_cards(*final(deck)) == deck_cards(*old(deck)).take(
            deck_cards(*old(deck)).len() - cards@.len(),
        ),
{
    let ghost before = deck_cards(*deck);
    let mut cards: Vec<Card> = Vec::new();
    let mut left: usize = num;
    while left > 0
        invariant
            before == deck_cards(*old(deck)),
            left <= num,
            cards@.len() == num - left,
            cards@.len() <= before.len(),
            cards@ == dealt(before, cards@.len() as int),
            deck_cards(*deck) == before.take(before.len() - cards@.len()),
        decreases left,
    {
        match deal_card(deck) {
            Some(c) => {
                cards.push(c);
                assert(cards@ =~= dealt(before, cards@.len() as int));
                assert(deck_cards(*deck) =~= before.take(before.len() - cards@.len()));
            },
            None => {
                return cards;
            },
        }
        left = left - 1;
    }
    cards
}

/// Five community cards off the deck, or as many as the deck holds.
pub fn deal_community(deck: &mut ShuffledDeck) -> (cards: Vec<Card>)
    ensures
        cards@ == dealt(deck_cards(*old(deck)), lesser(5, deck_cards(*old(deck)).len() as int)),
        deck_cards(*final(deck)) == deck_cards(*old(deck)).take(
            deck_cards(*old(deck)).len() - cards@.len(),
        ),
{
    let cards = deal_cards(deck, 5);
    assert(deck_cards(*deck) =~= deck_cards(*old(deck)).take(
        deck_cards(*old(deck)).len() - cards@.len(),
    ));
    cards
}

/// Two hole cards off the deck, or as many as the deck holds.
pub fn deal_hole(deck: &mut ShuffledDeck) -> (cards: Vec<Card>)
    ensures
        cards@ == dealt(deck_cards(*old(deck)), lesser(2, deck_cards(*old(deck)).len() as int)),
        deck_cards(*final(deck)) == deck_cards(*old(deck)).take(
            deck_cards(*old(deck)).len() - cards@.len(),
        ),
{
    let cards = deal_cards(deck, 2);
    assert(deck_cards(*deck) =~= deck_cards(*old(deck)).take(
        deck_cards(*old(deck)).len() - cards@.len(),
    ));
    cards
}

/// The cards of one hand for `seats` players off a fresh deck: the board
/// first, then two cards for each player.
pub fn draw_hand(seats: usize) -> (cards: Vec<Card>)
    requires
        seats <= MAX_SEATS,
    ensures
        cards@.len() == 5 + 2 * seats,
        all_valid(cards@),
        distinct(cards@),
{
    let mut deck = shuffled_deck();
    let ghost full = deck_cards(deck);
    let mut cards = deal_community(&mut deck);
    let mut k: usize = 0;
    while k < seats
        invariant
            k <= seats <= MAX_SEATS,
            full.len() == 52,
            cards@ == dealt(full, 5 + 2 * k),
            deck_cards(deck) == full.take(47 - 2 * k),
        decreases seats - k,
    {
        let ghost so_far = cards@;
        let ghost rest = deck_cards(deck);
        let mut hole = deal_hole(&mut deck);
        cards.append(&mut hole);
        assert(cards@ =~= dealt(full, 5 + 2 * (k + 1))) by {
            assert(cards@ == so_far + dealt(rest, 2));
        }
        assert(deck_cards(deck) =~= full.take(47 - 2 * (k + 1)));
        k = k + 1;
    }
    assert(all_valid(cards@)) by {
        assert forall|i: int| 0 <= i < cards@.len() implies (#[trigger] cards@[i]).valid() by {
            assert(full[51 - i].valid());
        }
    }
    assert(distinct(cards@)) by {
        assert forall|i: int, j: int| 0 <= i < j < cards@.len() implies cards@[i] != cards@[j] by {
            assert(full[51 - j] != full[51 - i]);
        }
    }
    cards
}

} // verus!
