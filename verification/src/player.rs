//! A seat at the table: who sits there, the stack, and where the player
//! stands in the current hand.

use crate::card::Card;
use crate::rank::{hand_rank, rank_cards, rankable, HandRank};
use vstd::prelude::*;

verus! {

/// A player of one table.
#[derive(Debug)]
pub struct Player {
    /// Two cards while in a hand, none before the first deal.
    pub hole_cards: Vec<Card>,
    /// Out of the current hand.
    pub folded: bool,
    /// The stack.
    pub chips: usize,
    pub display_name: String,
    /// Where the player's messages go.
    pub address: String,
    /// Chips put in during the current betting round.
    pub street_contrib: usize,
    /// Chips put in during the earlier rounds of the current hand.
    pub hand_contrib: usize,
    /// May still act in this round although the bet is matched.
    pub has_option: bool,
    /// Has put the whole stack in.
    pub all_in: bool,
    /// Lost the last chip in an earlier hand.
    pub eliminated: bool,
    /// The token that the player proves a move with.
    pub secret_id: u128,
}

/// A player as a plain value.
#[verifier::ext_equal]
pub struct PlayerView {
    pub hole_cards: Seq<Card>,
    pub folded: bool,
    pub chips: usize,
    pub display_name: Seq<char>,
    pub address: Seq<char>,
    pub street_contrib: usize,
    pub hand_contrib: usize,
    pub has_option: bool,
    pub all_in: bool,
    pub eliminated: bool,
    pub secret_id: u128,
}

impl PlayerView {
    /// Still in the hand.
    pub open spec fn live(self) -> bool {
        !self.folded && !self.eliminated
    }

    /// Still in the hand with chips to act with.
    pub open spec fn able(self) -> bool {
        !self.folded && !self.eliminated && !self.all_in
    }

    /// All the chips of the player: the stack and what is on the table.
    pub open spec fn wealth(self) -> int {
        self.chips + self.street_contrib + self.hand_contrib
    }

    /// What holds of a player at any time: a player who is out of the game
    /// has folded and has no chips, neither behind nor on the table, and a
    /// player who is all in has no chips behind.
    pub open spec fn sound(self) -> bool {
        &&& self.eliminated ==> self.folded && self.chips == 0 && self.street_contrib == 0
            && self.hand_contrib == 0
        &&& self.all_in ==> self.chips == 0
    }

    /// A player who is in the game and not all in has chips behind.
    pub open spec fn solvent(self) -> bool {
        !self.eliminated && !self.all_in ==> self.chips > 0
    }

    /// A player who has joined and not played yet, with a stack of `chips`.
    pub open spec fn fresh(self, chips: usize) -> bool {
        &&& self.chips == chips
        &&& self.hole_cards.len() == 0
        &&& !self.folded
        &&& self.street_contrib == 0
        &&& self.hand_contrib == 0
        &&& !self.has_option
        &&& !self.all_in
        &&& !self.eliminated
    }
}

impl View for Player {
    type V = PlayerView;

    open spec fn view(&self) -> PlayerView {
        PlayerView {
            hole_cards: self.hole_cards@,
            folded: self.folded,
            chips: self.chips,
            display_name: self.display_name@,
            address: self.address@,
            street_contrib: self.street_contrib,
            hand_contrib: self.hand_contrib,
            has_option: self.has_option,
            all_in: self.all_in,
            eliminated: self.eliminated,
            secret_id: self.secret_id,
        }
    }
}

/// `Uuid::new_v4` and `Uuid::as_u128` of `uuid`: a token drawn at random,
/// of which nothing is known beforehand. It stops the program where the
/// system has no random numbers.
#[verifier::external_body]
pub(crate) fn fresh_secret() -> (secret: u128) {
    uuid::Uuid::new_v4().as_u128()
}

/// A copy of the cards.
pub fn copy_cards(cards: &Vec<Card>) -> (copy: Vec<Card>)
    ensures
        copy@ == cards@,
{
    let mut copy: Vec<Card> = Vec::new();
    let mut i: usize = 0;
    while i < cards.len()
        invariant
            i <= cards.len(),
            copy@ == cards@.take(i as int),
        decreases cards.len() - i,
    {
        copy.push(cards[i]);
        assert(copy@ =~= cards@.take(i + 1));
        i = i + 1;
    }
    assert(cards@.take(cards.len() as int) =~= cards@);
    copy
}

impl Player {
    /// A player who joins with a stack of `starting_stack` and a token of
    /// the player's own, drawn at random.
    pub fn new(name: String, address: String, starting_stack: usize) -> (player: Player)
        ensures
            player@.fresh(starting_stack),
            player@.display_name == name@,
            player@.address == address@,
    {
        Player::with_secret(name, address, starting_stack, fresh_secret())
    }

    /// A player who joins with a stack of `starting_stack` and the token
    /// given.
    pub fn with_secret(
        name: String,
        address: String,
        starting_stack: usize,
        secret: u128,
    ) -> (player: Player)
        ensures
            player@.fresh(starting_stack),
            player@.display_name == name@,
            player@.address == address@,
            player@.secret_id == secret,
    {
        Player {
            chips: starting_stack,
            display_name: name,
            address: address,
            hole_cards: Vec::new(),
            folded: false,
            hand_contrib: 0,
            street_contrib: 0,
            has_option: false,
            all_in: false,
            eliminated: false,
            secret_id: secret,
        }
    }

    /// Hands the player the cards of a new hand, which puts the player back
    /// in.
    pub fn give_hand(&mut self, hand: &Vec<Card>)
        ensures
            final(self)@ == (PlayerView { hole_cards: hand@, folded: false, ..old(self)@ }),
    {
        self.hole_cards = copy_cards(hand);
        self.folded = false;
    }

    /// The rank of the best hand that the player's cards make with the
    /// community cards.
    pub fn get_rank(&self, community: &Vec<Card>) -> (rank: HandRank)
        requires
            rankable(community@ + self@.hole_cards),
        ensures
            rank == hand_rank(community@ + self@.hole_cards),
    {
        let mut my_hand: Vec<Card> = copy_cards(community);
        let mut i: usize = 0;
        while i < self.hole_cards.len()
            invariant
                i <= self.hole_cards.len(),
                my_hand@ == community@ + self.hole_cards@.take(i as int),
            decreases self.hole_cards.len() - i,
        {
            my_hand.push(self.hole_cards[i]);
            assert(my_hand@ =~= community@ + self.hole_cards@.take(i + 1));
            i = i + 1;
        }
        assert(self.hole_cards@.take(self.hole_cards.len() as int) =~= self.hole_cards@);
        rank_cards(&my_hand)
    }

    pub fn is_live(&self) -> (b: bool)
        ensures
            b == self@.live(),
    {
        !self.folded && !self.eliminated
    }

    pub fn is_able(&self) -> (b: bool)
        ensures
            b == self@.able(),
    {
        !self.folded && !self.eliminated && !self.all_in
    }
}

} // verus!
