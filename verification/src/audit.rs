//! Whether a table is well formed, told at run time.

use crate::card::{cards_ok, Card};
use crate::deck::MAX_SEATS;
use crate::event::Event;
use crate::game::{total_wealth, wealths, Game, Phase};
use crate::rank::rankable;
use crate::seating::is_seat_order;
use crate::sums::{lemma_sum_prefix, sum};
use vstd::prelude::*;

verus! {

impl Event {
    /// The number of the hand that the message belongs to, or 0 for a
    /// message from before the first hand.
    pub fn hand(&self) -> (hand: usize)
        ensures
            hand == self@.hand(),
    {
        match self {
            Event::PlayerPrivateInfo { .. } => 0,
            Event::GameTableInfo { .. } => 0,
            Event::HoleCardInfo { hand_number, .. } => *hand_number,
            Event::StreetInfo { hand_number, .. } => *hand_number,
            Event::ToMoveInfo { hand_number, .. } => *hand_number,
            Event::MoveInfo { hand_number, .. } => *hand_number,
            Event::PayoutInfo { hand_number, .. } => *hand_number,
            Event::PlayerEliminatedInfo { hand_number, .. } => *hand_number,
            Event::GameOverInfo { hand_number, .. } => *hand_number,
        }
    }
}

impl Game {
    /// Whether the chips at the table fit a machine number.
    fn chips_fit(&self) -> (fit: bool)
        ensures
            fit == (total_wealth(self@.players) <= usize::MAX),
    {
        let ghost all = wealths(self@.players);
        let n: usize = self.players.len();
        let mut total: usize = 0;
        let mut i: usize = 0;
        while i < n
            invariant
                n == self.players.len(),
                i <= n,
                all == wealths(self@.players),
                total == sum(all.take(i as int)),
            decreases n - i,
        {
            proof {
                lemma_sum_prefix(all, i + 1);
                assert(all.take(i + 1).drop_last() =~= all.take(i as int));
            }
            let p = &self.players[i];
            if p.chips > usize::MAX - total {
                return false;
            }
            total = total + p.chips;
            if p.street_contrib > usize::MAX - total {
                return false;
            }
            total = total + p.street_contrib;
            if p.hand_contrib > usize::MAX - total {
                return false;
            }
            total = total + p.hand_contrib;
            i = i + 1;
        }
        assert(all.take(n as int) =~= all);
        true
    }

    /// Whether every player is sound.
    fn players_sound(&self) -> (ok: bool)
        ensures
            ok == (forall|i: int|
                0 <= i < self@.players.len() ==> (#[trigger] self@.players[i]).sound()),
    {
        let mut i: usize = 0;
        while i < self.players.len()
            invariant
                i <= self.players.len(),
                forall|j: int| 0 <= j < i ==> (#[trigger] self@.players[j]).sound(),
            decreases self.players.len() - i,
        {
            let p = &self.players[i];
            let out_ok: bool = !p.eliminated || (p.folded && p.chips == 0 && p.street_contrib == 0
                && p.hand_contrib == 0);
            let in_ok: bool = !p.all_in || p.chips == 0;
            if !out_ok || !in_ok {
                assert(!self@.players[i as int].sound());
                return false;
            }
            i = i + 1;
        }
        true
    }

    /// Whether every player who is in the game holds two cards that can be
    /// ranked with the board.
    fn hands_rankable(&self) -> (ok: bool)
        requires
            self.board.len() == 5,
        ensures
            ok == (forall|i: int|
                0 <= i < self@.players.len() && !(#[trigger] self@.players[i]).eliminated
                    ==> self@.players[i].hole_cards.len() == 2 && rankable(
                    self@.board + self@.players[i].hole_cards,
                )),
    {
        let mut i: usize = 0;
        while i < self.players.len()
            invariant
                i <= self.players.len(),
                self.board.len() == 5,
                forall|j: int|
                    0 <= j < i && !(#[trigger] self@.players[j]).eliminated
                        ==> self@.players[j].hole_cards.len() == 2 && rankable(
                        self@.board + self@.players[j].hole_cards,
                    ),
            decreases self.players.len() - i,
        {
            let p = &self.players[i];
            if !p.eliminated {
                if p.hole_cards.len() != 2 {
                    assert(self@.players[i as int].hole_cards.len() != 2);
                    return false;
                }
                let mut seven: Vec<Card> = crate::player::copy_cards(&self.board);
                seven.push(p.hole_cards[0]);
                seven.push(p.hole_cards[1]);
                assert(seven@ =~= self@.board + self@.players[i as int].hole_cards);
                if !cards_ok(&seven) {
                    assert(!rankable(self@.board + self@.players[i as int].hole_cards));
                    return false;
                }
            }
            i = i + 1;
        }
        true
    }

    /// Whether nothing is on the table.
    fn table_clear(&self) -> (ok: bool)
        ensures
            ok == (forall|i: int|
                0 <= i < self@.players.len() ==> (#[trigger] self@.players[i]).street_contrib == 0
                    && self@.players[i].hand_contrib == 0),
    {
        let mut i: usize = 0;
        while i < self.players.len()
            invariant
                i <= self.players.len(),
                forall|j: int|
                    0 <= j < i ==> (#[trigger] self@.players[j]).street_contrib == 0
                        && self@.players[j].hand_contrib == 0,
            decreases self.players.len() - i,
        {
            if self.players[i].street_contrib != 0 || self.players[i].hand_contrib != 0 {
                assert(!(self@.players[i as int].street_contrib == 0
                    && self@.players[i as int].hand_contrib == 0));
                return false;
            }
            i = i + 1;
        }
        true
    }

    /// Whether every player can act and holds no option, as in the lobby.
    fn players_idle(&self) -> (ok: bool)
        ensures
            ok == (forall|i: int|
                0 <= i < self@.players.len() ==> (#[trigger] self@.players[i]).able()
                    && !self@.players[i].has_option),
    {
        let mut i: usize = 0;
        while i < self.players.len()
            invariant
                i <= self.players.len(),
                forall|j: int|
                    0 <= j < i ==> (#[trigger] self@.players[j]).able()
                        && !self@.players[j].has_option,
            decreases self.players.len() - i,
        {
            if !self.players[i].is_able() || self.players[i].has_option {
                assert(!(self@.players[i as int].able() && !self@.players[i as int].has_option));
                return false;
            }
            i = i + 1;
        }
        true
    }

    /// Whether every player who is in the game has chips behind, but for
    /// those who are all in where `or_all_in` is set.
    fn players_solvent(&self, or_all_in: bool) -> (ok: bool)
        ensures
            ok == (forall|i: int|
                0 <= i < self@.players.len() ==> !(#[trigger] self@.players[i]).eliminated && !(
                or_all_in && self@.players[i].all_in) ==> self@.players[i].chips > 0),
    {
        let mut i: usize = 0;
        while i < self.players.len()
            invariant
                i <= self.players.len(),
                forall|j: int|
                    0 <= j < i ==> !(#[trigger] self@.players[j]).eliminated && !(or_all_in
                        && self@.players[j].all_in) ==> self@.players[j].chips > 0,
            decreases self.players.len() - i,
        {
            let p = &self.players[i];
            if !p.eliminated && !(or_all_in && p.all_in) && p.chips == 0 {
                assert(self@.players[i as int].chips == 0);
                return false;
            }
            i = i + 1;
        }
        true
    }

    /// Whether the messages are in the order of the hands.
    fn outbox_in_order(&self) -> (ok: bool)
        ensures
            ok == self@.in_order(),
    {
        let n: usize = self.outbox.len();
        let mut last: usize = 0;
        let mut i: usize = 0;
        while i < n
            invariant
                n == self.outbox.len(),
                i <= n,
                last <= self.hand_number,
                i == 0 ==> last == 0,
                i > 0 ==> self@.outbox[i - 1].event.hand() == last,
                forall|k: int| 0 <= k < i ==> (#[trigger] self@.outbox[k]).event.hand() <= last,
                forall|k: int, m: int|
                    0 <= k <= m < i ==> (#[trigger] self@.outbox[k]).event.hand() <= (
                    #[trigger] self@.outbox[m]).event.hand(),
            decreases n - i,
        {
            let hand: usize = self.outbox[i].event.hand();
            assert(hand == self@.outbox[i as int].event.hand());
            if hand > self.hand_number {
                return false;
            }
            if hand < last {
                assert(self@.outbox[i - 1].event.hand() > self@.outbox[i as int].event.hand());
                return false;
            }
            last = hand;
            i = i + 1;
        }
        true
    }

    /// Whether the table is well formed. Every command keeps it so; a table
    /// whose fields were written from outside may not be.
    pub fn is_well_formed(&self) -> (ok: bool)
        ensures
            ok == self@.wf(),
    {
        let n: usize = self.players.len();
        if n > MAX_SEATS || self.seat_order.len() != n || !is_seat_order(&self.seat_order) {
            return false;
        }
        if !self.players_sound() || !self.chips_fit() || !self.outbox_in_order() {
            return false;
        }
        match self.phase {
            Phase::InHand => {
                n >= 2 && self.to_act < n && self.board.len() == 5 && self.hands_rankable()
                    && self.players_solvent(true)
            },
            Phase::Lobby => { self.hand_number == 0 && self.table_clear() && self.players_idle() },
            Phase::HandComplete => {
                n >= 2 && self.table_clear() && self.players_solvent(true) && self.players_solvent(
                    false,
                ) && self.active_players().len() >= 2
            },
            Phase::GameOver => { n >= 2 && self.table_clear() && self.players_solvent(true) },
        }
    }
}

} // verus!
