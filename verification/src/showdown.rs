//! The end of a hand: the payout, and who goes out of the game.

use crate::card::Card;
use crate::event::{Event, PayoutReason};
use crate::game::{live_flags, Game, GameView, Phase};
use crate::laws::{lemma_hand_payouts, lemma_round_closed};
use crate::player::PlayerView;
use crate::pot::{resolve_pots, strengths};
use crate::sums::as_ints;
use vstd::prelude::*;

verus! {

impl Game {
    /// What the payout goes by: for each player the stake in the hand,
    /// whether the player is still in the hand, and how strong the hand is.
    fn showdown_inputs(&self) -> (r: (Vec<usize>, Vec<bool>, Vec<u64>))
        requires
            self@.wf(),
            self@.phase == Phase::InHand,
        ensures
            r.0.len() == self.players.len(),
            r.1.len() == self.players.len(),
            r.2.len() == self.players.len(),
            as_ints(r.0@) == self@.hand_stakes(),
            r.1@ == live_flags(self@.players),
            strengths(r.2@) == self@.hand_strengths(),
    {
        proof {
            lemma_round_closed(self@);
        }
        let n: usize = self.players.len();
        let mut stakes: Vec<usize> = Vec::new();
        let mut live: Vec<bool> = Vec::new();
        let mut strength: Vec<u64> = Vec::new();
        let mut i: usize = 0;
        while i < n
            invariant
                n == self.players.len(),
                i <= n,
                self@.wf(),
                self@.phase == Phase::InHand,
                stakes.len() == i,
                live.len() == i,
                strength.len() == i,
                forall|j: int|
                    0 <= j < n ==> (#[trigger] self@.players[j]).hand_contrib
                        + self@.players[j].street_contrib <= usize::MAX,
                forall|j: int| 0 <= j < i ==> stakes@[j] == self@.hand_stakes()[j],
                forall|j: int| 0 <= j < i ==> live@[j] == live_flags(self@.players)[j],
                forall|j: int| 0 <= j < i ==> strength@[j] == self@.hand_strengths()[j],
            decreases n - i,
        {
            assert(self@.players[i as int].sound());
            stakes.push(self.players[i].hand_contrib + self.players[i].street_contrib);
            let in_hand: bool = self.players[i].is_live();
            live.push(in_hand);
            if in_hand {
                assert(!self@.players[i as int].eliminated);
                strength.push(self.players[i].get_rank(&self.board).score());
            } else {
                strength.push(0);
            }
            i = i + 1;
        }
        assert(as_ints(stakes@) =~= self@.hand_stakes());
        assert(live@ =~= live_flags(self@.players));
        assert(strengths(strength@) =~= self@.hand_strengths());
        (stakes, live, strength)
    }

    /// The message that tells of the payout `pay` of the hand.
    fn payout_info(&self, pay: &Vec<usize>) -> (event: Event)
        requires
            self@.wf(),
            self@.phase == Phase::InHand,
            pay.len() == self.players.len(),
            as_ints(pay@) == self@.hand_payouts(),
        ensures
            event@ == self@.payout_event(),
    {
        let n: usize = self.players.len();
        let folded_out: bool = self.num_live() == 1;
        let mut payouts: Vec<(usize, usize)> = Vec::new();
        let mut i: usize = 0;
        while i < n
            invariant
                n == self.players.len(),
                n == pay.len(),
                i <= n,
                payouts.len() == i,
                as_ints(pay@) == self@.hand_payouts(),
                forall|j: int|
                    0 <= j < i ==> payouts@[j] == (j as usize, self@.hand_payouts()[j] as usize),
            decreases n - i,
        {
            assert(as_ints(pay@)[i as int] == pay@[i as int]);
            payouts.push((i, pay[i]));
            i = i + 1;
        }
        let mut hole_cards: Vec<(usize, (Card, Card))> = Vec::new();
        if !folded_out {
            let mut k: usize = 0;
            while k < n
                invariant
                    n == self.players.len(),
                    k <= n,
                    self@.wf(),
                    self@.phase == Phase::InHand,
                    hole_cards@ == self@.shown_upto(k as int),
                decreases n - k,
            {
                assert(self@.players[k as int].sound());
                if self.players[k].is_live() && (self.players[k].hand_contrib > 0
                    || self.players[k].street_contrib > 0) {
                    assert(!self@.players[k as int].eliminated);
                    hole_cards.push(
                        (k, (self.players[k].hole_cards[0], self.players[k].hole_cards[1])),
                    );
                }
                k = k + 1;
            }
        }
        let event = Event::PayoutInfo {
            reason: if folded_out {
                PayoutReason::AllFolded
            } else {
                PayoutReason::Showdown
            },
            payouts,
            hole_cards,
            hand_number: self.hand_number,
        };
        assert(event@ =~= self@.payout_event()) by {
            assert(payouts@ =~= Seq::new(
                self@.players.len(),
                |i: int| (i as usize, self@.hand_payouts()[i] as usize),
            ));
        }
        event
    }

    /// Ends the hand: pays the stakes out, puts out who has no chips left,
    /// and ends the game where one player is left.
    pub fn end_hand(&mut self)
        requires
            old(self)@.wf(),
            old(self)@.phase == Phase::InHand,
        ensures
            final(self)@ == old(self)@.settled(),
    {
        proof {
            lemma_hand_payouts(self@);
        }
        let n: usize = self.players.len();
        let (stakes, live, strength) = self.showdown_inputs();
        let pay: Vec<usize> = resolve_pots(&stakes, &live, &strength, &self.seat_order);
        let payout_info = self.payout_info(&pay);
        let ghost paid = old(self)@.paid_out();
        let mut i: usize = 0;
        while i < n
            invariant
                n == self.players.len(),
                n == old(self)@.players.len(),
                n == pay.len(),
                i <= n,
                paid == old(self)@.paid_out(),
                as_ints(pay@) == old(self)@.hand_payouts(),
                forall|j: int|
                    0 <= j < n ==> (#[trigger] old(self)@.players[j]).chips
                        + old(self)@.hand_payouts()[j] <= usize::MAX,
                self@ == (GameView {
                    players: Seq::new(
                        n as nat,
                        |j: int|
                            if j < i {
                                paid[j]
                            } else {
                                old(self)@.players[j]
                            },
                    ),
                    ..old(self)@
                }),
            decreases n - i,
        {
            let ghost before = self@;
            assert(before.players[i as int] == old(self)@.players[i as int]);
            assert(as_ints(pay@)[i as int] == pay@[i as int]);
            self.players[i].chips = self.players[i].chips + pay[i];
            self.players[i].street_contrib = 0;
            self.players[i].hand_contrib = 0;
            if self.players[i].chips > 0 {
                self.players[i].all_in = false;
            }
            let ghost target = Seq::new(
                n as nat,
                |j: int|
                    if j < i + 1 {
                        paid[j]
                    } else {
                        old(self)@.players[j]
                    },
            );
            assert(self@.players[i as int] == paid[i as int]);
            assert forall|j: int| 0 <= j < n implies self@.players[j] == target[j] by {
                if j != i {
                    assert(self@.players[j] == before.players[j]);
                }
            }
            assert(self@.players =~= target);
            i = i + 1;
        }
        assert(self@.players =~= paid);
        assert(self@ =~= (GameView { players: paid, ..old(self)@ }));
        self.send_to_all_players(payout_info);
        let ghost told = self@;
        let mut k: usize = 0;
        while k < n
            invariant
                n == self.players.len(),
                n == told.players.len(),
                k <= n,
                self@ == told.busted(k as int),
            decreases n - k,
        {
            if self.players[k].chips == 0 && !self.players[k].eliminated {
                self.players[k].eliminated = true;
                self.players[k].folded = true;
                let ghost p = told.busted(k as int).players[k as int];
                assert(self@.players =~= told.busted(k as int).players.update(
                    k as int,
                    PlayerView { eliminated: true, folded: true, ..p },
                ));
                let event = Event::PlayerEliminatedInfo {
                    eliminated_player: k,
                    hand_number: self.hand_number,
                };
                self.send_to_all_players(event);
            }
            proof {
                crate::laws::lemma_busted_same_hand(told, k as int + 1);
            }
            k = k + 1;
        }
        let alive: Vec<usize> = self.active_players();
        if alive.len() == 1 {
            self.phase = Phase::GameOver;
            let event = Event::GameOverInfo {
                winning_player: alive[0],
                hand_number: self.hand_number,
            };
            self.send_to_all_players(event);
        } else if alive.len() == 0 {
            self.phase = Phase::GameOver;
        } else {
            self.phase = Phase::HandComplete;
        }
    }
}

} // verus!
