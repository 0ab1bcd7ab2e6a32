//! Moves, turns and betting rounds.

use crate::action::{Action, Street};
use crate::card::Card;
use crate::event::{Event, MoveType, Outbound};
use crate::game::{
    able_flags,
    active_ids,
    active_upto,
    live_flags,
    revealed,
    Game,
    GameView,
    Phase,
};
use crate::laws::{lemma_moved, lemma_round_closed, lemma_round_opened};
use crate::player::PlayerView;
use crate::pot::{any, count};
use crate::seating::{
    is_seating,
    lemma_one_place,
    next_able,
    prev_able,
    scan_left,
    scan_right,
    seat_of,
};
use vstd::prelude::*;

verus! {

/// Counting the flags one by one.
pub proof fn lemma_count_step(flags: Seq<bool>, k: int)
    requires
        0 <= k < flags.len(),
    ensures
        count(flags.take(k + 1)) == count(flags.take(k)) + if flags[k] {
            1nat
        } else {
            0nat
        },
{
    assert(flags.take(k + 1).drop_last() =~= flags.take(k));
}

impl Game {
    /// The ids of the players who are still in the game.
    pub fn active_players(&self) -> (ids: Vec<usize>)
        ensures
            ids@ == active_ids(self@.players),
    {
        let mut ids: Vec<usize> = Vec::new();
        let mut i: usize = 0;
        while i < self.players.len()
            invariant
                i <= self.players.len(),
                ids@ == active_upto(self@.players, i as int),
            decreases self.players.len() - i,
        {
            if !self.players[i].eliminated {
                ids.push(i);
            }
            i = i + 1;
        }
        ids
    }

    /// Puts a message to all who are still in the game into the outbox.
    pub fn send_to_all_players(&mut self, event: Event)
        ensures
            final(self)@ == old(self)@.told(event@),
    {
        let recipients = self.active_players();
        self.outbox.push(Outbound { recipients, event });
        assert(self@.outbox =~= old(self)@.told(event@).outbox);
    }

    /// Puts a message to one player into the outbox.
    pub fn send_to_player(&mut self, player_id: usize, event: Event)
        ensures
            final(self)@ == old(self)@.told_one(player_id, event@),
    {
        let mut recipients: Vec<usize> = Vec::new();
        recipients.push(player_id);
        assert(recipients@ =~= seq![player_id]);
        self.outbox.push(Outbound { recipients, event });
        assert(self@.outbox =~= old(self)@.told_one(player_id, event@).outbox);
    }

    /// Makes a legal move of the player to act and tells all of it.
    pub fn make_move(&mut self, m: Action)
        requires
            old(self)@.wf(),
            old(self)@.phase == Phase::InHand,
            m.is_plain(),
            m.amount() <= old(self)@.players[old(self).to_act as int].chips,
        ensures
            final(self)@ == old(self)@.moved(m).told(old(self)@.move_event(m)),
    {
        let i: usize = self.to_act;
        proof {
            lemma_moved(self@, m);
        }
        let move_type: MoveType;
        let mut value: usize = 0;
        match m {
            Action::Fold => {
                move_type = MoveType::Fold;
                self.players[i].folded = true;
                self.players[i].has_option = false;
            },
            Action::Bet(bet) => {
                move_type = MoveType::Bet;
                value = bet;
                let stake: usize = self.players[i].street_contrib + bet;
                if stake > self.current_bet {
                    self.min_raise = stake - self.current_bet;
                    self.current_bet = stake;
                }
                self.players[i].street_contrib = stake;
                self.players[i].chips = self.players[i].chips - bet;
                self.players[i].has_option = false;
            },
            Action::PostBlind(blind) => {
                move_type = MoveType::Blind;
                value = blind;
                self.players[i].street_contrib = self.players[i].street_contrib + blind;
                self.players[i].chips = self.players[i].chips - blind;
            },
            Action::Check => {
                move_type = MoveType::Check;
                self.players[i].has_option = false;
            },
            _ => {
                move_type = MoveType::Check;
            },
        }
        if self.players[i].chips == 0 {
            self.players[i].all_in = true;
        }
        assert(self@.players =~= old(self)@.moved(m).players);
        assert(self@ =~= old(self)@.moved(m));
        let event = Event::MoveInfo {
            player_id: i,
            move_type,
            value,
            hand_number: self.hand_number,
        };
        assert(event@ == old(self)@.move_event(m));
        self.send_to_all_players(event);
    }

    /// Whether the betting round is over.
    pub fn is_street_over(&self) -> (over: bool)
        ensures
            over == self@.street_over(),
    {
        let mut i: usize = 0;
        while i < self.players.len()
            invariant
                i <= self.players.len(),
                forall|j: int|
                    0 <= j < i && (#[trigger] self@.players[j]).able()
                        ==> !self@.players[j].has_option && self@.players[j].street_contrib
                        == self.current_bet,
            decreases self.players.len() - i,
        {
            if self.players[i].is_able() && (self.players[i].has_option
                || self.players[i].street_contrib != self.current_bet) {
                assert(self@.players[i as int].able());
                return false;
            }
            i = i + 1;
        }
        true
    }

    /// How many players are still in the hand.
    pub fn num_live(&self) -> (num: usize)
        ensures
            num == count(live_flags(self@.players)),
    {
        let ghost flags = live_flags(self@.players);
        let mut num: usize = 0;
        let mut i: usize = 0;
        while i < self.players.len()
            invariant
                i <= self.players.len(),
                flags == live_flags(self@.players),
                num == count(flags.take(i as int)),
                num <= i,
            decreases self.players.len() - i,
        {
            proof {
                lemma_count_step(flags, i as int);
            }
            if self.players[i].is_live() {
                num = num + 1;
            }
            i = i + 1;
        }
        assert(flags.take(self.players.len() as int) =~= flags);
        num
    }

    /// How many players are still in the game.
    pub fn num_in_play(&self) -> (num: usize)
        ensures
            num == count(crate::game::active_flags(self@.players)),
    {
        let ghost flags = crate::game::active_flags(self@.players);
        let mut num: usize = 0;
        let mut i: usize = 0;
        while i < self.players.len()
            invariant
                i <= self.players.len(),
                flags == crate::game::active_flags(self@.players),
                num == count(flags.take(i as int)),
                num <= i,
            decreases self.players.len() - i,
        {
            proof {
                lemma_count_step(flags, i as int);
            }
            if !self.players[i].eliminated {
                num = num + 1;
            }
            i = i + 1;
        }
        assert(flags.take(self.players.len() as int) =~= flags);
        num
    }

    /// Whether anybody can act.
    pub fn anybody_able(&self) -> (some: bool)
        ensures
            some == any(able_flags(self@.players)),
    {
        let mut i: usize = 0;
        while i < self.players.len()
            invariant
                i <= self.players.len(),
                forall|j: int| 0 <= j < i ==> !able_flags(self@.players)[j],
            decreases self.players.len() - i,
        {
            if self.players[i].is_able() {
                assert(able_flags(self@.players)[i as int]);
                return true;
            }
            i = i + 1;
        }
        false
    }

    /// Whether the hand is over.
    pub fn is_hand_over(&self) -> (over: bool)
        ensures
            over == self@.hand_over(),
    {
        let river: bool = match self.street {
            Street::River => true,
            _ => false,
        };
        if river && self.is_street_over() {
            return true;
        }
        if self.num_live() <= 1 {
            return true;
        }
        !self.anybody_able()
    }

    /// The player who acts after `current_player`.
    pub fn next_player(&self, current_player: usize) -> (next: usize)
        requires
            is_seating(self@.seat_order, self@.players.len() as int),
            current_player < self.players.len(),
        ensures
            next == next_able(able_flags(self@.players), self@.seat_order, current_player),
            next < self.players.len(),
    {
        let ghost able = able_flags(self@.players);
        let ghost order = self@.seat_order;
        let n: usize = self.seat_order.len();
        assert(order.contains(current_player));
        let start: usize = seat_of(&self.seat_order, current_player);
        proof {
            lemma_one_place(order, n as int, start as int);
        }
        let mut place: usize = start;
        let mut left: usize = n - 1;
        while left > 0
            invariant
                n == self.seat_order.len(),
                n == self.players.len(),
                is_seating(order, n as int),
                able == able_flags(self@.players),
                order == self@.seat_order,
                place < n,
                left < n,
                order.index_of(current_player) == start as int,
                scan_left(able, order, place as int, left as nat) == scan_left(
                    able,
                    order,
                    start as int,
                    (n - 1) as nat,
                ),
            decreases left,
        {
            place = if place + 1 < n {
                place + 1
            } else {
                0
            };
            let id: usize = self.seat_order[place];
            if self.players[id].is_able() {
                return id;
            }
            left = left - 1;
        }
        current_player
    }

    /// The player who acts before `current_player`.
    pub fn prev_player(&self, current_player: usize) -> (prev: usize)
        requires
            is_seating(self@.seat_order, self@.players.len() as int),
            current_player < self.players.len(),
        ensures
            prev == prev_able(able_flags(self@.players), self@.seat_order, current_player),
            prev < self.players.len(),
    {
        let ghost able = able_flags(self@.players);
        let ghost order = self@.seat_order;
        let n: usize = self.seat_order.len();
        assert(order.contains(current_player));
        let start: usize = seat_of(&self.seat_order, current_player);
        proof {
            lemma_one_place(order, n as int, start as int);
        }
        let mut place: usize = start;
        let mut left: usize = n - 1;
        while left > 0
            invariant
                n == self.seat_order.len(),
                n == self.players.len(),
                is_seating(order, n as int),
                able == able_flags(self@.players),
                order == self@.seat_order,
                place < n,
                left < n,
                order.index_of(current_player) == start as int,
                scan_right(able, order, place as int, left as nat) == scan_right(
                    able,
                    order,
                    start as int,
                    (n - 1) as nat,
                ),
            decreases left,
        {
            place = if place > 0 {
                place - 1
            } else {
                n - 1
            };
            let id: usize = self.seat_order[place];
            if self.players[id].is_able() {
                return id;
            }
            left = left - 1;
        }
        current_player
    }

    /// Passes the turn to the next player who can act and tells all.
    pub fn pass_turn(&mut self)
        requires
            old(self)@.wf(),
            old(self)@.phase == Phase::InHand,
        ensures
            final(self)@ == old(self)@.turn_passed(),
    {
        self.to_act = self.next_player(self.to_act);
        let event = Event::ToMoveInfo { player_id: self.to_act, hand_number: self.hand_number };
        self.send_to_all_players(event);
    }

    /// The community cards that the current round reveals.
    pub fn street_cards(&self) -> (cards: Vec<Card>)
        requires
            self.board.len() == 5,
        ensures
            cards@ == revealed(self@.board, self.street),
    {
        let mut cards: Vec<Card> = Vec::new();
        match self.street {
            Street::PreFlop => {},
            Street::Flop => {
                cards.push(self.board[0]);
                cards.push(self.board[1]);
                cards.push(self.board[2]);
            },
            Street::Turn => {
                cards.push(self.board[3]);
            },
            Street::River => {
                cards.push(self.board[4]);
            },
        }
        assert(cards@ =~= revealed(self@.board, self.street));
        cards
    }

    /// Opens the betting round: sets who begins and who closes, and tells
    /// all.
    pub fn deal_street(&mut self)
        requires
            old(self)@.wf(),
            old(self)@.phase == Phase::InHand,
        ensures
            final(self)@ == old(self)@.round_opened(),
    {
        proof {
            lemma_round_opened(self@);
        }
        let button: usize = self.seat_order[0];
        let first: usize = self.next_player(button);
        let option_player: usize = self.prev_player(first);
        self.players[option_player].has_option = true;
        self.to_act = first;
        let street_info = Event::StreetInfo {
            street: self.street,
            button_player: button,
            board_cards_revealed: self.street_cards(),
            hand_number: self.hand_number,
        };
        let ghost opened = GameView {
            players: old(self)@.players.update(
                option_player as int,
                PlayerView { has_option: true, ..old(self)@.players[option_player as int] },
            ),
            to_act: first,
            ..old(self)@
        };
        assert(self@.players =~= opened.players);
        assert(self@ =~= opened);
        self.send_to_all_players(street_info);
        let to_move = Event::ToMoveInfo { player_id: first, hand_number: self.hand_number };
        self.send_to_all_players(to_move);
    }

    /// Closes the betting round and opens the next.
    pub fn next_street(&mut self)
        requires
            old(self)@.wf(),
            old(self)@.phase == Phase::InHand,
        ensures
            final(self)@ == old(self)@.street_dealt(),
    {
        proof {
            lemma_round_closed(self@);
        }
        let ghost closed = old(self)@.round_closed();
        let n: usize = self.players.len();
        let mut i: usize = 0;
        while i < n
            invariant
                n == self.players.len(),
                n == old(self)@.players.len(),
                i <= n,
                closed == old(self)@.round_closed(),
                forall|j: int|
                    0 <= j < n ==> (#[trigger] old(self)@.players[j]).hand_contrib
                        + old(self)@.players[j].street_contrib <= usize::MAX,
                self@ == (GameView {
                    players: Seq::new(
                        n as nat,
                        |j: int|
                            if j < i {
                                closed[j]
                            } else {
                                old(self)@.players[j]
                            },
                    ),
                    ..old(self)@
                }),
            decreases n - i,
        {
            let ghost before = self@;
            assert(before.players[i as int] == old(self)@.players[i as int]);
            if !self.players[i].eliminated {
                self.players[i].hand_contrib = self.players[i].hand_contrib
                    + self.players[i].street_contrib;
                self.players[i].street_contrib = 0;
                self.players[i].has_option = false;
            }
            let ghost target = Seq::new(
                n as nat,
                |j: int|
                    if j < i + 1 {
                        closed[j]
                    } else {
                        old(self)@.players[j]
                    },
            );
            assert(self@.players.len() == n);
            assert(self@.players[i as int] == closed[i as int]);
            assert forall|j: int| 0 <= j < n implies self@.players[j] == target[j] by {
                if j != i {
                    assert(self@.players[j] == before.players[j]);
                }
            }
            assert(self@.players =~= target);
            i = i + 1;
        }
        assert(self@.players =~= closed);
        self.current_bet = 0;
        self.min_raise = 2;
        self.street = self.street.next();
        assert(self@ =~= (GameView {
            players: closed,
            current_bet: 0,
            min_raise: 2,
            street: old(self)@.street.following(),
            ..old(self)@
        }));
        self.deal_street();
    }
}

} // verus!
