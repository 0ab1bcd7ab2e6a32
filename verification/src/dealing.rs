//! The start of a hand: the cards, the button, the blinds.

use crate::action::{interpret, Action, Street};
use crate::card::{cards_ok, Card};
use crate::event::Event;
use crate::game::{active_ids, active_upto, Game, GameView, Phase};
use crate::laws::{
    law_deal_keeps_table,
    lemma_active_upto,
    lemma_hand_seated,
    lemma_hand_started,
    lemma_legal,
};
use crate::player::PlayerView;
use crate::seating::button_moved;
use vstd::prelude::*;

verus! {

impl Game {
    /// The player to act posts a blind of up to `blind` chips, and the turn
    /// passes.
    pub fn post_blind(&mut self, blind: usize)
        requires
            old(self)@.wf(),
            old(self)@.phase == Phase::InHand,
        ensures
            final(self)@ == old(self)@.blind_posted(blind),
    {
        let i: usize = self.to_act;
        let m: Action = interpret(
            Action::PostBlind(blind),
            self.players[i].street_contrib,
            self.players[i].chips,
            self.players[i].has_option,
            self.current_bet,
            self.min_raise,
        );
        proof {
            lemma_legal(self@, Action::PostBlind(blind));
        }
        self.make_move(m);
        self.pass_turn();
    }

    /// Hands the players who are still in the game their cards of the new
    /// hand.
    fn deal_players(&mut self, cards: &Vec<Card>)
        requires
            old(self)@.players.len() <= crate::deck::MAX_SEATS,
            cards@.len() >= crate::game::cards_needed(active_ids(old(self)@.players).len() as int),
        ensures
            final(self)@ == (GameView { players: old(self)@.dealt_in(cards@), ..old(self)@ }),
    {
        let ghost dealt = old(self)@.dealt_in(cards@);
        let n: usize = self.players.len();
        let mut at: usize = 5;
        let mut i: usize = 0;
        proof {
            lemma_active_upto(old(self)@.players, n as int);
        }
        while i < n
            invariant
                n == self.players.len(),
                n == old(self)@.players.len(),
                n <= crate::deck::MAX_SEATS,
                i <= n,
                dealt == old(self)@.dealt_in(cards@),
                at == 5 + 2 * active_upto(old(self)@.players, i as int).len(),
                at <= 5 + 2 * i,
                cards@.len() >= 5 + 2 * active_upto(old(self)@.players, n as int).len(),
                forall|j: int|
                    0 <= j <= n ==> (#[trigger] active_upto(old(self)@.players, j)).len()
                        <= active_upto(old(self)@.players, n as int).len(),
                forall|j: int|
                    0 <= j < n && !old(self)@.players[j].eliminated ==> (#[trigger] active_upto(
                        old(self)@.players,
                        j,
                    )).len() < active_upto(old(self)@.players, n as int).len(),
                self@ == (GameView {
                    players: Seq::new(
                        n as nat,
                        |j: int|
                            if j < i {
                                dealt[j]
                            } else {
                                old(self)@.players[j]
                            },
                    ),
                    ..old(self)@
                }),
            decreases n - i,
        {
            let ghost before = self@;
            assert(before.players[i as int] == old(self)@.players[i as int]);
            self.players[i].has_option = false;
            if !self.players[i].eliminated {
                assert(active_upto(old(self)@.players, i as int).len() < active_upto(
                    old(self)@.players,
                    n as int,
                ).len());
                let mut hole: Vec<Card> = Vec::new();
                hole.push(cards[at]);
                hole.push(cards[at + 1]);
                assert(hole@ =~= cards@.subrange(at as int, at + 2));
                self.players[i].hole_cards = hole;
                self.players[i].folded = false;
                self.players[i].all_in = false;
                at = at + 2;
            }
            let ghost target = Seq::new(
                n as nat,
                |j: int|
                    if j < i + 1 {
                        dealt[j]
                    } else {
                        old(self)@.players[j]
                    },
            );
            assert(self@.players[i as int] == dealt[i as int]);
            assert forall|j: int| 0 <= j < n implies self@.players[j] == target[j] by {
                if j != i {
                    assert(self@.players[j] == before.players[j]);
                }
            }
            assert(self@.players =~= target);
            i = i + 1;
        }
        assert(self@.players =~= dealt);
    }

    /// Starts a hand with the cards given: the first five are the board,
    /// two each go to the players.
    pub fn new_hand(&mut self, cards: &Vec<Card>)
        requires
            old(self)@.wf(),
            old(self)@.can_deal(cards@),
        ensures
            final(self)@ == old(self)@.hand_started(cards@),
    {
        proof {
            lemma_hand_seated(old(self)@, cards@);
            lemma_hand_started(old(self)@, cards@);
        }
        let n: usize = self.players.len();
        self.deal_players(cards);
        self.hand_number = self.hand_number + 1;
        self.min_raise = 2;
        self.current_bet = 0;
        // The button moves on.
        let button: usize = self.seat_order.remove(0);
        self.seat_order.push(button);
        assert(self.seat_order@ =~= button_moved(old(self)@.seat_order));
        let mut board: Vec<Card> = Vec::new();
        board.push(cards[0]);
        board.push(cards[1]);
        board.push(cards[2]);
        board.push(cards[3]);
        board.push(cards[4]);
        assert(board@ =~= cards@.subrange(0, 5));
        self.board = board;
        self.street = Street::PreFlop;
        self.phase = Phase::InHand;
        // The blinds.
        let first: usize = self.next_player(self.seat_order[0]);
        let small: usize = if self.num_in_play() == 2 {
            self.next_player(first)
        } else {
            first
        };
        let big: usize = self.next_player(small);
        self.to_act = small;
        let ghost fresh = GameView {
            hand_number: (old(self)@.hand_number + 1) as usize,
            min_raise: 2,
            current_bet: 0,
            board: cards@.subrange(0, 5),
            players: old(self)@.dealt_in(cards@),
            seat_order: button_moved(old(self)@.seat_order),
            street: Street::PreFlop,
            phase: Phase::InHand,
            to_act: small,
            ..old(self)@
        };
        assert(self@ =~= fresh);
        let mut k: usize = 0;
        while k < n
            invariant
                n == fresh.players.len(),
                k <= n,
                fresh.wf(),
                fresh.phase == Phase::InHand,
                self@ == fresh.holes_told(k as int),
            decreases n - k,
        {
            proof {
                crate::laws::lemma_holes_told(fresh, k as int);
            }
            assert(self@.players == fresh.players);
            assert(self.players@.len() == self@.players.len());
            assert(self@.players[k as int] == self.players@[k as int]@);
            if !self.players[k].eliminated {
                assert(!fresh.players[k as int].eliminated);
                assert(fresh.players[k as int].hole_cards.len() == 2);
                let event = Event::HoleCardInfo {
                    hole_cards: (self.players[k].hole_cards[0], self.players[k].hole_cards[1]),
                    hand_number: self.hand_number,
                };
                self.send_to_player(k, event);
            }
            k = k + 1;
        }
        proof {
            crate::laws::lemma_holes_told(fresh, n as int);
        }
        assert(self@.players == fresh.players);
        assert(self.players@.len() == self@.players.len());
        self.players[big].has_option = true;
        assert(self@.players =~= fresh.holes_told(n as int).players.update(
            big as int,
            PlayerView { has_option: true, ..fresh.holes_told(n as int).players[big as int] },
        ));
        assert(self@ =~= old(self)@.hand_seated(cards@));
        self.post_blind(1);
        self.post_blind(2);
        self.current_bet = 2;
        let street_info = Event::StreetInfo {
            street: Street::PreFlop,
            button_player: self.seat_order[0],
            board_cards_revealed: Vec::new(),
            hand_number: self.hand_number,
        };
        self.send_to_all_players(street_info);
        let to_move = Event::ToMoveInfo { player_id: self.to_act, hand_number: self.hand_number };
        self.send_to_all_players(to_move);
    }

    /// Deals the next hand from the cards given, where that can be done,
    /// and says whether it was. The hand is paid out at once where the
    /// blinds leave nobody who can act.
    pub fn deal(&mut self, cards: &Vec<Card>) -> (dealt: bool)
        requires
            old(self)@.wf(),
        ensures
            dealt == old(self)@.can_deal(cards@),
            final(self)@ == old(self)@.hand_dealt(cards@),
            final(self)@.wf(),
            dealt || old(self)@.ready() ==> final(self)@.ready(),
            dealt || old(self)@.bets_in_line() ==> final(self)@.bets_in_line(),
            final(self)@.players.len() == old(self)@.players.len(),
            crate::game::total_wealth(final(self)@.players) == crate::game::total_wealth(
                old(self)@.players,
            ),
    {
        proof {
            law_deal_keeps_table(self@, cards@);
            crate::laws::law_turn_is_with_a_player_who_can_act(
                self@,
                crate::action::Action::Fold,
                cards@,
            );
            lemma_active_upto(self@.players, self@.players.len() as int);
            if self@.can_deal(cards@) {
                crate::laws::law_deal_puts_bets_in_line(self@, cards@);
            }
        }
        let waiting: bool = match self.phase {
            Phase::HandComplete => true,
            _ => false,
        };
        if !waiting || self.hand_number == usize::MAX {
            return false;
        }
        let seats: usize = self.active_players().len();
        if cards.len() < 5 + 2 * seats {
            return false;
        }
        if !cards_ok(cards) {
            return false;
        }
        proof {
            lemma_hand_started(self@, cards@);
        }
        self.new_hand(cards);
        if self.is_hand_over() {
            self.end_hand();
        }
        true
    }
}

} // verus!
