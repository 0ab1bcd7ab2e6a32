//! The table: its state, and what every command makes of it.
//!
//! The rules are written down once, as functions from one state of the table
//! to the next (`GameView`). The commands of `Game` are proved to do what
//! these functions say.

use crate::action::{normalize, Action, Street};
use crate::card::Card;
use crate::deck::MAX_SEATS;
use crate::event::{outbox_view, EventView, MoveType, Outbound, OutboundView, PayoutReason};
use crate::player::{Player, PlayerView};
use crate::pot::{any, count, payouts};
use crate::rank::{hand_rank, rankable};
use crate::seating::{button_moved, is_seating, next_able, prev_able};
use crate::sums::sum;
use vstd::prelude::*;

verus! {

/// Where a table stands in its life.
#[derive(Clone, Copy, Debug, PartialEq, Eq, Structural)]
pub enum Phase {
    /// Players join, the settings may change.
    Lobby,
    /// A hand is being played.
    InHand,
    /// A hand has been paid out and the next one is not dealt yet.
    HandComplete,
    /// One player holds all the chips.
    GameOver,
}

/// One poker table.
#[derive(Debug)]
pub struct Game {
    /// The five community cards of the hand, revealed to the players round
    /// by round.
    pub board: Vec<Card>,
    /// The players by seat id, in the order in which they joined.
    pub players: Vec<Player>,
    /// The seat ids clockwise round the table, the button first.
    pub seat_order: Vec<usize>,
    pub street: Street,
    /// The seat id of the player whose turn it is.
    pub to_act: usize,
    pub phase: Phase,
    /// The most players that may join.
    pub max_players: usize,
    /// The chips that a player joins with.
    pub starting_stack: usize,
    /// The highest stake of a player in this round.
    pub current_bet: usize,
    /// The least that a raise must add to the bet.
    pub min_raise: usize,
    /// Counts the hands, from 1.
    pub hand_number: usize,
    /// The messages that wait to be sent, the oldest first.
    pub outbox: Vec<Outbound>,
}

/// A table as a plain value.
#[verifier::ext_equal]
pub struct GameView {
    pub board: Seq<Card>,
    pub players: Seq<PlayerView>,
    pub seat_order: Seq<usize>,
    pub street: Street,
    pub to_act: usize,
    pub phase: Phase,
    pub max_players: usize,
    pub starting_stack: usize,
    pub current_bet: usize,
    pub min_raise: usize,
    pub hand_number: usize,
    pub outbox: Seq<OutboundView>,
}

/// The players as plain values.
pub open spec fn players_view(players: Seq<Player>) -> Seq<PlayerView> {
    Seq::new(players.len(), |i: int| players[i]@)
}

impl View for Game {
    type V = GameView;

    open spec fn view(&self) -> GameView {
        GameView {
            board: self.board@,
            players: players_view(self.players@),
            seat_order: self.seat_order@,
            street: self.street,
            to_act: self.to_act,
            phase: self.phase,
            max_players: self.max_players,
            starting_stack: self.starting_stack,
            current_bet: self.current_bet,
            min_raise: self.min_raise,
            hand_number: self.hand_number,
            outbox: outbox_view(self.outbox@),
        }
    }
}

/// For each player, whether the player can act.
pub open spec fn able_flags(players: Seq<PlayerView>) -> Seq<bool> {
    Seq::new(players.len(), |i: int| players[i].able())
}

/// For each player, whether the player is still in the hand.
pub open spec fn live_flags(players: Seq<PlayerView>) -> Seq<bool> {
    Seq::new(players.len(), |i: int| players[i].live())
}

/// For each player, whether the player is still in the game.
pub open spec fn active_flags(players: Seq<PlayerView>) -> Seq<bool> {
    Seq::new(players.len(), |i: int| !players[i].eliminated)
}

/// The ids of the first `k` players who are still in the game.
pub open spec fn active_upto(players: Seq<PlayerView>, k: int) -> Seq<usize>
    decreases k,
{
    if k <= 0 {
        Seq::empty()
    } else if players[k - 1].eliminated {
        active_upto(players, k - 1)
    } else {
        active_upto(players, k - 1).push((k - 1) as usize)
    }
}

/// The ids of the players who are still in the game, in rising order. They
/// are the ones who get the messages that go to all.
pub open spec fn active_ids(players: Seq<PlayerView>) -> Seq<usize> {
    active_upto(players, players.len() as int)
}

/// All the chips of each player.
pub open spec fn wealths(players: Seq<PlayerView>) -> Seq<int> {
    Seq::new(players.len(), |i: int| players[i].wealth())
}

/// All the chips at the table.
pub open spec fn total_wealth(players: Seq<PlayerView>) -> int {
    sum(wealths(players))
}

/// The community cards that a round reveals.
pub open spec fn revealed(board: Seq<Card>, street: Street) -> Seq<Card> {
    match street {
        Street::PreFlop => Seq::empty(),
        Street::Flop => board.subrange(0, 3),
        Street::Turn => board.subrange(3, 4),
        Street::River => board.subrange(4, 5),
    }
}

/// The cards that a deal needs for `seats` players.
pub open spec fn cards_needed(seats: int) -> int {
    5 + 2 * seats
}

impl GameView {
    /// The player with the button.
    pub open spec fn button(self) -> usize {
        self.seat_order[0]
    }

    /// What holds of a table between any two commands.
    pub open spec fn wf(self) -> bool {
        &&& self.players.len() <= MAX_SEATS
        &&& is_seating(self.seat_order, self.players.len() as int)
        &&& forall|i: int| 0 <= i < self.players.len() ==> (#[trigger] self.players[i]).sound()
        &&& total_wealth(self.players) <= usize::MAX
        &&& self.phase == Phase::InHand ==> {
            &&& self.to_act < self.players.len()
            &&& self.board.len() == 5
            &&& forall|i: int|
                0 <= i < self.players.len() && !(#[trigger] self.players[i]).eliminated
                    ==> self.players[i].hole_cards.len() == 2 && rankable(
                    self.board + self.players[i].hole_cards,
                )
        }
        &&& self.phase != Phase::InHand ==> forall|i: int|
            0 <= i < self.players.len() ==> (#[trigger] self.players[i]).street_contrib == 0
                && self.players[i].hand_contrib == 0
        &&& self.phase != Phase::Lobby ==> self.players.len() >= 2 && forall|i: int|
            0 <= i < self.players.len() ==> (#[trigger] self.players[i]).solvent()
        &&& self.phase == Phase::HandComplete ==> active_ids(self.players).len() >= 2
            && forall|i: int|
            0 <= i < self.players.len() && !(#[trigger] self.players[i]).eliminated
                ==> self.players[i].chips > 0
        &&& self.phase == Phase::Lobby ==> self.hand_number == 0 && forall|i: int|
            0 <= i < self.players.len() ==> (#[trigger] self.players[i]).able()
                && !self.players[i].has_option
        &&& self.in_order()
    }

    /// The messages are in the order of the hands, and none is of a hand
    /// that has not begun.
    pub open spec fn in_order(self) -> bool {
        &&& forall|k: int|
            0 <= k < self.outbox.len() ==> (#[trigger] self.outbox[k]).event.hand()
                <= self.hand_number
        &&& forall|k: int, m: int|
            0 <= k <= m < self.outbox.len() ==> (#[trigger] self.outbox[k]).event.hand() <= (
            #[trigger] self.outbox[m]).event.hand()
    }

    /// The table after a message to all who are still in the game.
    pub open spec fn told(self, event: EventView) -> GameView {
        GameView {
            outbox: self.outbox.push(
                OutboundView { recipients: active_ids(self.players), event },
            ),
            ..self
        }
    }

    /// The table after a message to one player.
    pub open spec fn told_one(self, id: usize, event: EventView) -> GameView {
        GameView { outbox: self.outbox.push(OutboundView { recipients: seq![id], event }), ..self }
    }

    /// The legal move that stands for a request of the player to act.
    pub open spec fn legal(self, action: Action) -> Action {
        let p = self.players[self.to_act as int];
        normalize(
            action,
            p.street_contrib,
            p.chips,
            p.has_option,
            self.current_bet,
            self.min_raise,
        )
    }

    /// The table after the player to act has made a legal move.
    ///
    /// A check uses up the option, a fold also leaves the hand. A bet moves
    /// its chips from the stack to the table and uses up the option; where
    /// it takes the player's stake above the bet, the excess is the new
    /// minimum raise and the stake the new bet. A blind moves its chips and
    /// leaves bet, minimum raise and option alone. A player without chips
    /// behind is all in.
    pub open spec fn moved(self, m: Action) -> GameView {
        let i = self.to_act as int;
        let p = self.players[i];
        let q = match m {
            Action::Check => PlayerView { has_option: false, ..p },
            Action::Fold => PlayerView { folded: true, has_option: false, ..p },
            Action::Bet(b) => PlayerView {
                street_contrib: (p.street_contrib + b) as usize,
                chips: (p.chips - b) as usize,
                has_option: false,
                ..p
            },
            Action::PostBlind(b) => PlayerView {
                street_contrib: (p.street_contrib + b) as usize,
                chips: (p.chips - b) as usize,
                ..p
            },
            _ => p,
        };
        let r = if q.chips == 0 {
            PlayerView { all_in: true, ..q }
        } else {
            q
        };
        let raised = m is Bet && p.street_contrib + m.amount() > self.current_bet;
        GameView {
            players: self.players.update(i, r),
            min_raise: if raised {
                (p.street_contrib + m.amount() - self.current_bet) as usize
            } else {
                self.min_raise
            },
            current_bet: if raised {
                (p.street_contrib + m.amount()) as usize
            } else {
                self.current_bet
            },
            ..self
        }
    }

    /// The message that tells of a legal move of the player to act.
    pub open spec fn move_event(self, m: Action) -> EventView {
        EventView::MoveInfo {
            player_id: self.to_act,
            move_type: match m {
                Action::Fold => MoveType::Fold,
                Action::Bet(_) => MoveType::Bet,
                Action::PostBlind(_) => MoveType::Blind,
                _ => MoveType::Check,
            },
            value: m.amount() as usize,
            hand_number: self.hand_number,
        }
    }

    /// The betting round is over: nobody who can act holds the option, and
    /// everybody who can act has matched the bet.
    pub open spec fn street_over(self) -> bool {
        forall|i: int|
            0 <= i < self.players.len() && (#[trigger] self.players[i]).able()
                ==> !self.players[i].has_option && self.players[i].street_contrib
                == self.current_bet
    }

    /// The hand is over: the last betting round is, or at most one player is
    /// left in the hand, or nobody who is left can act.
    pub open spec fn hand_over(self) -> bool {
        ||| self.street == Street::River && self.street_over()
        ||| count(live_flags(self.players)) <= 1
        ||| !any(able_flags(self.players))
    }

    /// The table after the turn has passed to the next player who can act.
    pub open spec fn turn_passed(self) -> GameView {
        let next = next_able(able_flags(self.players), self.seat_order, self.to_act);
        GameView { to_act: next, ..self }.told(
            EventView::ToMoveInfo { player_id: next, hand_number: self.hand_number },
        )
    }

    /// The players after a betting round: the stakes of the round have
    /// joined those of the hand, and no option is left.
    pub open spec fn round_closed(self) -> Seq<PlayerView> {
        Seq::new(
            self.players.len(),
            |i: int|
                {
                    let p = self.players[i];
                    if p.eliminated {
                        p
                    } else {
                        PlayerView {
                            hand_contrib: (p.hand_contrib + p.street_contrib) as usize,
                            street_contrib: 0,
                            has_option: false,
                            ..p
                        }
                    }
                },
        )
    }

    /// The table after a betting round has been opened.
    ///
    /// The first player left of the button who can act begins; the player
    /// who acts last holds the option, so that the round lasts until that
    /// player has acted. All are told of the round and the cards that it
    /// reveals, and whose turn it is.
    pub open spec fn round_opened(self) -> GameView {
        let able = able_flags(self.players);
        let first = next_able(able, self.seat_order, self.seat_order[0]);
        let closer = prev_able(able, self.seat_order, first);
        GameView {
            players: self.players.update(
                closer as int,
                PlayerView { has_option: true, ..self.players[closer as int] },
            ),
            to_act: first,
            ..self
        }.told(
            EventView::StreetInfo {
                street: self.street,
                button_player: self.seat_order[0],
                board_cards_revealed: revealed(self.board, self.street),
                hand_number: self.hand_number,
            },
        ).told(EventView::ToMoveInfo { player_id: first, hand_number: self.hand_number })
    }

    /// The table at the start of the next betting round: the stakes of the
    /// round have joined those of the hand, the bet is nothing again and the
    /// minimum raise 2, and the round is opened.
    pub open spec fn street_dealt(self) -> GameView {
        GameView {
            players: self.round_closed(),
            current_bet: 0,
            min_raise: 2,
            street: self.street.following(),
            ..self
        }.round_opened()
    }

    /// What each player has staked in the hand.
    pub open spec fn hand_stakes(self) -> Seq<int> {
        Seq::new(
            self.players.len(),
            |i: int| self.players[i].hand_contrib + self.players[i].street_contrib,
        )
    }

    /// How strong the hand of each player is who is still in the hand.
    pub open spec fn hand_strengths(self) -> Seq<int> {
        Seq::new(
            self.players.len(),
            |i: int|
                if self.players[i].live() {
                    hand_rank(self.board + self.players[i].hole_cards).strength()
                } else {
                    0
                },
        )
    }

    /// What the hand pays each player.
    pub open spec fn hand_payouts(self) -> Seq<int> {
        payouts(
            self.hand_stakes(),
            live_flags(self.players),
            self.hand_strengths(),
            self.seat_order,
        )
    }

    /// The hands shown among the first `k` players: those of the players
    /// who are in the hand with a stake.
    pub open spec fn shown_upto(self, k: int) -> Seq<(usize, (Card, Card))>
        decreases k,
    {
        if k <= 0 {
            Seq::empty()
        } else {
            let p = self.players[k - 1];
            if p.live() && p.hand_contrib + p.street_contrib > 0 {
                self.shown_upto(k - 1).push(((k - 1) as usize, (p.hole_cards[0], p.hole_cards[1])))
            } else {
                self.shown_upto(k - 1)
            }
        }
    }

    /// The message that tells of the payout of the hand. Where all but one
    /// player have folded, no hand is shown.
    pub open spec fn payout_event(self) -> EventView {
        let pay = self.hand_payouts();
        let folded_out = count(live_flags(self.players)) == 1;
        EventView::PayoutInfo {
            reason: if folded_out {
                PayoutReason::AllFolded
            } else {
                PayoutReason::Showdown
            },
            payouts: Seq::new(self.players.len(), |i: int| (i as usize, pay[i] as usize)),
            hole_cards: if folded_out {
                Seq::empty()
            } else {
                self.shown_upto(self.players.len() as int)
            },
            hand_number: self.hand_number,
        }
    }

    /// The players after the payout: what they are paid has joined their
    /// stacks, and nothing is left on the table.
    pub open spec fn paid_out(self) -> Seq<PlayerView> {
        let pay = self.hand_payouts();
        Seq::new(
            self.players.len(),
            |i: int|
                {
                    let p = self.players[i];
                    let chips = (p.chips + pay[i]) as usize;
                    PlayerView {
                        chips,
                        street_contrib: 0,
                        hand_contrib: 0,
                        all_in: p.all_in && chips == 0,
                        ..p
                    }
                },
        )
    }

    /// The table after those of the first `k` players who have no chips
    /// left have gone out of the game, one after the other. Of each, those
    /// who are still in the game are told.
    pub open spec fn busted(self, k: int) -> GameView
        decreases k,
    {
        if k <= 0 {
            self
        } else {
            let g = self.busted(k - 1);
            let p = g.players[k - 1];
            if p.chips == 0 && !p.eliminated {
                GameView {
                    players: g.players.update(
                        k - 1,
                        PlayerView { eliminated: true, folded: true, ..p },
                    ),
                    ..g
                }.told(
                    EventView::PlayerEliminatedInfo {
                        eliminated_player: (k - 1) as usize,
                        hand_number: g.hand_number,
                    },
                )
            } else {
                g
            }
        }
    }

    /// The table after the hand has ended.
    ///
    /// The stakes are paid out and the players told; who has no chips left
    /// goes out of the game. Where one player is left, the game is over and
    /// that player is told so; else the next hand waits to be dealt.
    pub open spec fn settled(self) -> GameView {
        let paid = GameView { players: self.paid_out(), ..self }.told(self.payout_event());
        let g = paid.busted(self.players.len() as int);
        let alive = active_ids(g.players);
        if alive.len() == 1 {
            GameView { phase: Phase::GameOver, ..g }.told(
                EventView::GameOverInfo { winning_player: alive[0], hand_number: g.hand_number },
            )
        } else if alive.len() == 0 {
            GameView { phase: Phase::GameOver, ..g }
        } else {
            GameView { phase: Phase::HandComplete, ..g }
        }
    }

    /// The table after a move of the player to act has been told: the hand
    /// ends, or the next round begins, or the turn passes.
    pub open spec fn carried_on(self) -> GameView {
        if self.hand_over() {
            self.settled()
        } else if self.street_over() {
            self.street_dealt()
        } else {
            self.turn_passed()
        }
    }

    /// The table after a request of the player to act. Outside a hand
    /// nothing happens.
    pub open spec fn acted(self, action: Action) -> GameView {
        if self.phase != Phase::InHand {
            self
        } else {
            let m = self.legal(action);
            self.moved(m).told(self.move_event(m)).carried_on()
        }
    }

    /// The players with the cards of a new hand.
    ///
    /// The cards after the first five go out two by two to the players who
    /// are still in the game, in the order of their ids. These players are
    /// back in the hand, and nobody holds an option.
    pub open spec fn dealt_in(self, cards: Seq<Card>) -> Seq<PlayerView> {
        Seq::new(
            self.players.len(),
            |i: int|
                {
                    let p = self.players[i];
                    let at = 5 + 2 * (active_upto(self.players, i).len() as int);
                    if p.eliminated {
                        PlayerView { has_option: false, ..p }
                    } else {
                        PlayerView {
                            hole_cards: cards.subrange(at, at + 2),
                            folded: false,
                            all_in: false,
                            has_option: false,
                            ..p
                        }
                    }
                },
        )
    }

    /// The table after those of the first `k` players who are in the game
    /// have each been told their own cards.
    pub open spec fn holes_told(self, k: int) -> GameView
        decreases k,
    {
        if k <= 0 {
            self
        } else {
            let g = self.holes_told(k - 1);
            let p = self.players[k - 1];
            if p.eliminated {
                g
            } else {
                g.told_one(
                    (k - 1) as usize,
                    EventView::HoleCardInfo {
                        hole_cards: (p.hole_cards[0], p.hole_cards[1]),
                        hand_number: self.hand_number,
                    },
                )
            }
        }
    }

    /// The table after the player to act has posted a blind of up to
    /// `blind` chips and the turn has passed.
    pub open spec fn blind_posted(self, blind: usize) -> GameView {
        let m = self.legal(Action::PostBlind(blind));
        self.moved(m).told(self.move_event(m)).turn_passed()
    }

    /// The table with a new hand dealt from `cards`, before the blinds.
    ///
    /// The hand counter goes up, the button moves one seat on, the first
    /// five cards are the board and the players get their cards and are
    /// told of them. The small blind is the first player left of the button
    /// (with two players, the button) and acts first; the big blind is the
    /// next and holds the option.
    pub open spec fn hand_seated(self, cards: Seq<Card>) -> GameView {
        let order = button_moved(self.seat_order);
        let players = self.dealt_in(cards);
        let able = able_flags(players);
        let first = next_able(able, order, order[0]);
        let small = if count(active_flags(players)) == 2 {
            next_able(able, order, first)
        } else {
            first
        };
        let big = next_able(able, order, small);
        let told = GameView {
            hand_number: (self.hand_number + 1) as usize,
            min_raise: 2,
            current_bet: 0,
            board: cards.subrange(0, 5),
            players,
            seat_order: order,
            street: Street::PreFlop,
            phase: Phase::InHand,
            to_act: small,
            ..self
        }.holes_told(self.players.len() as int);
        GameView {
            players: told.players.update(
                big as int,
                PlayerView { has_option: true, ..told.players[big as int] },
            ),
            ..told
        }
    }

    /// The table at the start of a new hand, dealt from `cards`: the small
    /// and the big blind post 1 and 2, which makes the bet 2, and all are
    /// told that the first round begins, and whose turn it is.
    pub open spec fn hand_started(self, cards: Seq<Card>) -> GameView {
        let blinds = self.hand_seated(cards).blind_posted(1).blind_posted(2);
        GameView { current_bet: 2, ..blinds }.told(
            EventView::StreetInfo {
                street: Street::PreFlop,
                button_player: blinds.seat_order[0],
                board_cards_revealed: Seq::empty(),
                hand_number: blinds.hand_number,
            },
        ).told(
            EventView::ToMoveInfo { player_id: blinds.to_act, hand_number: blinds.hand_number },
        )
    }

    /// Whether a new hand can be dealt from `cards`: the last hand is paid
    /// out, the cards are different cards of the deck and enough for the
    /// players who are still in the game, and the hand counter has room.
    pub open spec fn can_deal(self, cards: Seq<Card>) -> bool {
        &&& self.phase == Phase::HandComplete
        &&& self.hand_number < usize::MAX
        &&& cards.len() >= cards_needed(active_ids(self.players).len() as int)
        &&& crate::card::all_valid(cards)
        &&& crate::card::distinct(cards)
    }

    /// The table after a deal from `cards`. Where the blinds leave nobody
    /// who can act, the hand is over at once.
    pub open spec fn hand_dealt(self, cards: Seq<Card>) -> GameView {
        if !self.can_deal(cards) {
            self
        } else {
            let g = self.hand_started(cards);
            if g.hand_over() {
                g.settled()
            } else {
                g
            }
        }
    }

    /// The table after a deal from each of the decks in turn.
    pub open spec fn dealt_all(self, decks: Seq<Seq<Card>>) -> GameView
        decreases decks.len(),
    {
        if decks.len() == 0 {
            self
        } else {
            self.dealt_all(decks.drop_last()).hand_dealt(decks.last())
        }
    }

    /// Whether each of the decks can be dealt from when its turn comes.
    pub open spec fn can_deal_all(self, decks: Seq<Seq<Card>>) -> bool
        decreases decks.len(),
    {
        decks.len() == 0 || (self.can_deal_all(decks.drop_last()) && self.dealt_all(
            decks.drop_last(),
        ).can_deal(decks.last()))
    }

    /// Whether the table comes of `before` by deals from decks of cards, as
    /// many as it took until a hand was under way or the game over.
    pub open spec fn dealt_on_from(self, before: GameView) -> bool {
        &&& exists|decks: Seq<Seq<Card>>|
            before.can_deal_all(decks) && self == #[trigger] before.dealt_all(decks)
        &&& self.phase == Phase::HandComplete ==> self.hand_number == usize::MAX
    }

    /// During a hand, the player whose turn it is can act, and has chips to
    /// act with.
    pub open spec fn ready(self) -> bool {
        self.phase == Phase::InHand ==> self.to_act < self.players.len()
            && self.players[self.to_act as int].able() && self.players[self.to_act as int].chips
            > 0
    }

    /// The chips at the table are the starting stacks of its players.
    pub open spec fn balanced(self) -> bool {
        total_wealth(self.players) == self.players.len() * self.starting_stack
    }

    /// Every player has at most the bet on the table in this round.
    pub open spec fn bets_in_line(self) -> bool {
        forall|i: int|
            0 <= i < self.players.len() ==> (#[trigger] self.players[i]).street_contrib
                <= self.current_bet
    }

    /// The table after the first `k` players have each been told their seat
    /// id and token.
    pub open spec fn privates_told(self, k: int) -> GameView
        decreases k,
    {
        if k <= 0 {
            self
        } else {
            self.privates_told(k - 1).told_one(
                (k - 1) as usize,
                EventView::PlayerPrivateInfo {
                    ingame_id: (k - 1) as usize,
                    secret_id: self.players[k - 1].secret_id,
                },
            )
        }
    }

    /// The names of the players in the order of their seats.
    pub open spec fn names_by_seat(self) -> Seq<(usize, Seq<char>)> {
        Seq::new(
            self.seat_order.len(),
            |k: int| (self.seat_order[k], self.players[self.seat_order[k] as int].display_name),
        )
    }

    /// Whether the game can start: it has not started, and two or more
    /// players have joined, each with chips.
    pub open spec fn can_open(self) -> bool {
        &&& self.phase == Phase::Lobby
        &&& self.players.len() >= 2
        &&& forall|i: int| 0 <= i < self.players.len() ==> (#[trigger] self.players[i]).chips > 0
    }

    /// The table after the game has started: each player is told the own
    /// seat id and token, all are told how the table is seated, and the
    /// first hand waits to be dealt.
    pub open spec fn opened(self) -> GameView {
        if !self.can_open() {
            self
        } else {
            GameView { phase: Phase::HandComplete, ..self }.privates_told(
                self.players.len() as int,
            ).told(
                EventView::GameTableInfo {
                    starting_stack: self.starting_stack,
                    seat_order: self.seat_order,
                    button_player: self.seat_order[0],
                    display_names: self.names_by_seat(),
                },
            )
        }
    }

    /// Whether a player can join the table, whatever the seats are to be:
    /// the game has not started, there is a seat and a deck serves one
    /// player more, and the chips at the table still fit a machine number.
    pub open spec fn can_join(self) -> bool {
        &&& self.phase == Phase::Lobby
        &&& self.players.len() < self.max_players
        &&& self.players.len() < MAX_SEATS
        &&& total_wealth(self.players) + self.starting_stack <= usize::MAX
    }

    /// Whether a player can join and the table be seated in the order
    /// `order`, which is to hold the new player too.
    pub open spec fn can_seat(self, order: Seq<usize>) -> bool {
        self.can_join() && is_seating(order, self.players.len() as int + 1)
    }

    /// The table after a player has joined: with the next seat id, the
    /// starting stack, and the seats in the order `order`.
    pub open spec fn seated(
        self,
        name: Seq<char>,
        address: Seq<char>,
        secret: u128,
        order: Seq<usize>,
    ) -> GameView {
        if !self.can_seat(order) {
            self
        } else {
            GameView {
                players: self.players.push(
                    PlayerView {
                        hole_cards: Seq::empty(),
                        folded: false,
                        chips: self.starting_stack,
                        display_name: name,
                        address,
                        street_contrib: 0,
                        hand_contrib: 0,
                        has_option: false,
                        all_in: false,
                        eliminated: false,
                        secret_id: secret,
                    },
                ),
                seat_order: order,
                ..self
            }
        }
    }
}

} // verus!
