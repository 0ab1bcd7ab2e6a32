//! The commands of a table: settings, joining, starting, and the moves of
//! the players.

use crate::action::{interpret, Action, Street};
use crate::deck::{draw_hand, MAX_SEATS};
use crate::event::{names_view, Event, Outbound};
use crate::game::{total_wealth, wealths, Game, GameView, Phase};
use crate::laws::{
    law_action_keeps_table,
    law_deal_keeps_table,
    law_join_keeps_table,
    law_start_keeps_table,
    lemma_active_upto,
    lemma_legal,
    lemma_privates_told,
};
use crate::player::{fresh_secret, Player};
use crate::seating::{is_seat_order, is_seating};
use crate::sums::{lemma_sum_prefix, sum};
use rand::seq::SliceRandom;
use vstd::prelude::*;

verus! {

/// `SliceRandom::shuffle` of `rand` with the generator of `rand::rng`: puts
/// the seats into an order drawn at random, by swapping them. Whatever the
/// order, it holds the same seats as before, each as often. The generator
/// stops the program where the system has no random numbers to seed it.
#[verifier::external_body]
pub(crate) fn shuffle_seats(order: &mut Vec<usize>)
    ensures
        final(order)@.to_multiset() == old(order)@.to_multiset(),
{
    order.shuffle(&mut rand::rng());
}

/// Seats in another order are still a seat order.
pub proof fn lemma_shuffled_is_seating(before: Seq<usize>, after: Seq<usize>, n: int)
    requires
        is_seating(before, n),
        after.to_multiset() == before.to_multiset(),
    ensures
        is_seating(after, n),
{
    before.to_multiset_ensures();
    after.to_multiset_ensures();
    assert forall|k: int| 0 <= k < n implies after[k] < n by {
        assert(after.contains(after[k]));
        assert(after.to_multiset().count(after[k]) > 0);
        assert(before.to_multiset().count(after[k]) > 0);
        assert(before.contains(after[k]));
    }
    assert forall|id: usize| id < n implies after.contains(id) by {
        assert(before.contains(id));
        assert(before.to_multiset().count(id) > 0);
        assert(after.to_multiset().count(id) > 0);
    }
    assert(before.no_duplicates());
    before.lemma_multiset_has_no_duplicates();
    after.lemma_multiset_has_no_duplicates_conv();
}

/// A seat order with a new player at the end is a seat order.
pub proof fn lemma_seat_added(order: Seq<usize>, n: int)
    requires
        is_seating(order, n),
        n < usize::MAX,
    ensures
        is_seating(order.push(n as usize), n + 1),
{
    let longer = order.push(n as usize);
    assert forall|id: usize| id < n + 1 implies longer.contains(id) by {
        if id < n {
            assert(order.contains(id));
            let k = order.index_of(id);
            assert(longer[k] == id);
        } else {
            assert(longer[n] == id);
        }
    }
}

impl Game {
    /// A table in the lobby, where players join with `stack` chips each and
    /// up to ten may sit.
    pub fn new(stack: usize) -> (game: Game)
        ensures
            game@.wf(),
            game@.phase == Phase::Lobby,
            game@.players.len() == 0,
            game@.seat_order.len() == 0,
            game@.board.len() == 0,
            game@.outbox.len() == 0,
            game@.starting_stack == stack,
            game@.max_players == 10,
            game@.street == Street::River,
            game@.to_act == 0,
            game@.current_bet == 0,
            game@.min_raise == 2,
            game@.hand_number == 0,
            game@.balanced(),
    {
        let game = Game {
            board: Vec::new(),
            players: Vec::new(),
            seat_order: Vec::new(),
            street: Street::River,
            to_act: 0,
            phase: Phase::Lobby,
            max_players: 10,
            starting_stack: stack,
            current_bet: 0,
            min_raise: 2,
            hand_number: 0,
            outbox: Vec::new(),
        };
        assert(wealths(game@.players) =~= Seq::<int>::empty());
        assert(0 * stack == 0) by (nonlinear_arith);
        game
    }

    /// The player with the button, once somebody has joined.
    pub fn button_player(&self) -> (id: Option<usize>)
        ensures
            id == (if self@.seat_order.len() > 0 {
                Some(self@.button())
            } else {
                None
            }),
    {
        if self.seat_order.len() > 0 {
            Some(self.seat_order[0])
        } else {
            None
        }
    }

    /// Whether the game has started.
    pub fn started(&self) -> (b: bool)
        ensures
            b == (self@.phase != Phase::Lobby),
    {
        match self.phase {
            Phase::Lobby => false,
            _ => true,
        }
    }

    /// Whether the game is over.
    pub fn game_over(&self) -> (b: bool)
        ensures
            b == (self@.phase == Phase::GameOver),
    {
        match self.phase {
            Phase::GameOver => true,
            _ => false,
        }
    }

    /// Whether a hand is being played.
    pub fn in_hand(&self) -> (b: bool)
        ensures
            b == (self@.phase == Phase::InHand),
    {
        match self.phase {
            Phase::InHand => true,
            _ => false,
        }
    }

    /// Whether the next hand waits to be dealt.
    pub fn awaits_deal(&self) -> (b: bool)
        ensures
            b == (self@.phase == Phase::HandComplete),
    {
        match self.phase {
            Phase::HandComplete => true,
            _ => false,
        }
    }

    /// Sets the chips that a player joins with. Refused once the game has
    /// started.
    pub fn set_starting_stack(&mut self, stack: usize) -> (ok: bool)
        requires
            old(self)@.wf(),
        ensures
            ok == (old(self)@.phase == Phase::Lobby),
            ok ==> final(self)@ == (GameView { starting_stack: stack, ..old(self)@ }),
            !ok ==> final(self)@ == old(self)@,
            final(self)@.wf(),
    {
        if self.started() {
            return false;
        }
        self.starting_stack = stack;
        true
    }

    /// Sets the most players that may join. Refused once the game has
    /// started, and where more players have joined already.
    pub fn set_player_limit(&mut self, limit: usize) -> (ok: bool)
        requires
            old(self)@.wf(),
        ensures
            ok == (old(self)@.phase == Phase::Lobby && limit >= old(self)@.players.len()),
            ok ==> final(self)@ == (GameView { max_players: limit, ..old(self)@ }),
            !ok ==> final(self)@ == old(self)@,
            final(self)@.wf(),
    {
        if self.started() || limit < self.players.len() {
            return false;
        }
        self.max_players = limit;
        true
    }

    /// All the chips at the table.
    pub fn total_chips(&self) -> (total: usize)
        requires
            self@.wf(),
        ensures
            total == total_wealth(self@.players),
    {
        let ghost all = wealths(self@.players);
        let n: usize = self.players.len();
        let mut total: usize = 0;
        let mut i: usize = 0;
        while i < n
            invariant
                n == self.players.len(),
                i <= n,
                all == wealths(self@.players),
                sum(all) <= usize::MAX,
                total == sum(all.take(i as int)),
            decreases n - i,
        {
            proof {
                lemma_sum_prefix(all, i + 1);
                assert(all.take(i + 1).drop_last() =~= all.take(i as int));
            }
            total = total + self.players[i].chips;
            total = total + self.players[i].street_contrib;
            total = total + self.players[i].hand_contrib;
            i = i + 1;
        }
        assert(all.take(n as int) =~= all);
        total
    }

    /// Lets a player join with the token `secret`, and seats the table in
    /// the order `order`. Says whether the player has joined.
    pub fn seat(&mut self, name: &str, address: &str, secret: u128, order: Vec<usize>) -> (ok: bool)
        requires
            old(self)@.wf(),
        ensures
            ok == old(self)@.can_seat(order@),
            final(self)@ == old(self)@.seated(name@, address@, secret, order@),
            final(self)@.wf(),
    {
        proof {
            law_join_keeps_table(self@, name@, address@, secret, order@);
        }
        let n: usize = self.players.len();
        if self.started() || n >= self.max_players || n >= MAX_SEATS {
            return false;
        }
        let total: usize = self.total_chips();
        if self.starting_stack > usize::MAX - total {
            return false;
        }
        if order.len() != n + 1 || !is_seat_order(&order) {
            return false;
        }
        let player = Player::with_secret(
            String::from_str(name),
            String::from_str(address),
            self.starting_stack,
            secret,
        );
        self.players.push(player);
        self.seat_order = order;
        assert(self@.players =~= old(self)@.seated(name@, address@, secret, order@).players) by {
            assert(self@.players[n as int].hole_cards =~= Seq::<crate::card::Card>::empty());
        }
        true
    }

    /// Lets a player join, where the game has not started and there is a
    /// seat, with a token drawn at random, and seats the table in an order
    /// drawn at random. Says whether the player has joined.
    pub fn add_player(&mut self, name: &str, address: &str) -> (ok: bool)
        requires
            old(self)@.wf(),
        ensures
            ok == old(self)@.can_join(),
            !ok ==> final(self)@ == old(self)@,
            ok ==> old(self)@.can_seat(final(self)@.seat_order)
                && final(self)@ == old(self)@.seated(
                name@,
                address@,
                final(self)@.players.last().secret_id,
                final(self)@.seat_order,
            ),
            final(self)@.wf(),
    {
        let n: usize = self.players.len();
        if self.started() || n >= self.max_players || n >= MAX_SEATS {
            return false;
        }
        let total: usize = self.total_chips();
        if self.starting_stack > usize::MAX - total {
            return false;
        }
        let mut order: Vec<usize> = Vec::new();
        let mut k: usize = 0;
        while k < n
            invariant
                n == self.seat_order.len(),
                k <= n,
                order@ == self.seat_order@.take(k as int),
            decreases n - k,
        {
            order.push(self.seat_order[k]);
            assert(order@ =~= self.seat_order@.take(k + 1));
            k = k + 1;
        }
        assert(self.seat_order@.take(n as int) =~= self.seat_order@);
        order.push(n);
        let ghost unshuffled = order@;
        shuffle_seats(&mut order);
        proof {
            lemma_seat_added(self@.seat_order, n as int);
            lemma_shuffled_is_seating(unshuffled, order@, n + 1);
        }
        let secret: u128 = fresh_secret();
        self.seat(name, address, secret, order)
    }

    /// Starts the game, where it has not started and two or more players
    /// have joined, each with chips: the players are told their seats, and
    /// the first hand waits to be dealt. Says whether the game has started.
    pub fn begin(&mut self) -> (ok: bool)
        requires
            old(self)@.wf(),
        ensures
            ok == old(self)@.can_open(),
            final(self)@ == old(self)@.opened(),
            final(self)@.wf(),
    {
        proof {
            law_start_keeps_table(self@);
        }
        let n: usize = self.players.len();
        if self.started() || n < 2 {
            return false;
        }
        let mut c: usize = 0;
        while c < n
            invariant
                n == self.players.len(),
                c <= n,
                self@ == old(self)@,
                self@.wf(),
                self@.opened().wf(),
                self@.phase == Phase::Lobby,
                forall|j: int| 0 <= j < c ==> (#[trigger] self@.players[j]).chips > 0,
            decreases n - c,
        {
            if self.players[c].chips == 0 {
                assert(self@.players[c as int].chips == 0);
                return false;
            }
            c = c + 1;
        }
        self.phase = Phase::HandComplete;
        let ghost waiting = GameView { phase: Phase::HandComplete, ..old(self)@ };
        assert(self@ =~= waiting);
        let mut i: usize = 0;
        while i < n
            invariant
                n == waiting.players.len(),
                i <= n,
                waiting.wf(),
                waiting.hand_number == 0,
                self@ == waiting.privates_told(i as int),
            decreases n - i,
        {
            proof {
                lemma_privates_told(waiting, i as int);
            }
            assert(self@.players == waiting.players);
            assert(self.players@.len() == self@.players.len());
            assert(self@.players[i as int] == self.players@[i as int]@);
            let event = Event::PlayerPrivateInfo {
                ingame_id: i,
                secret_id: self.players[i].secret_id,
            };
            self.send_to_player(i, event);
            i = i + 1;
        }
        proof {
            lemma_privates_told(waiting, n as int);
        }
        assert(self@.players == waiting.players);
        assert(self.players@.len() == self@.players.len());
        assert(self@.seat_order == waiting.seat_order);
        let mut seat_order: Vec<usize> = Vec::new();
        let mut display_names: Vec<(usize, String)> = Vec::new();
        let mut k: usize = 0;
        while k < n
            invariant
                n == self.players.len(),
                n == self.seat_order.len(),
                is_seating(self.seat_order@, n as int),
                k <= n,
                seat_order@ == self.seat_order@.take(k as int),
                display_names.len() == k,
                forall|j: int|
                    0 <= j < k ==> (#[trigger] display_names@[j]).0 == self.seat_order@[j]
                        && display_names@[j].1@ == self.players@[self.seat_order@[j] as int]@
                        .display_name,
            decreases n - k,
        {
            let id: usize = self.seat_order[k];
            seat_order.push(id);
            assert(seat_order@ =~= self.seat_order@.take(k + 1));
            display_names.push((id, self.players[id].display_name.clone()));
            k = k + 1;
        }
        assert(self.seat_order@.take(n as int) =~= self.seat_order@);
        assert(names_view(display_names@) =~= waiting.names_by_seat()) by {
            assert forall|j: int| 0 <= j < n implies names_view(display_names@)[j]
                == waiting.names_by_seat()[j] by {
                assert(self@.players[self.seat_order@[j] as int]
                    == self.players@[self.seat_order@[j] as int]@);
            }
        }
        let event = Event::GameTableInfo {
            starting_stack: self.starting_stack,
            seat_order,
            button_player: self.seat_order[0],
            display_names,
        };
        self.send_to_all_players(event);
        true
    }

    /// While the next hand waits to be dealt, deals it from a deck that is
    /// shuffled for it.
    pub fn deal_out(&mut self)
        requires
            old(self)@.wf(),
        ensures
            final(self)@.wf(),
            final(self)@.dealt_on_from(old(self)@),
            old(self)@.ready() ==> final(self)@.ready(),
            old(self)@.bets_in_line() ==> final(self)@.bets_in_line(),
            old(self)@.phase != Phase::HandComplete ==> final(self)@ == old(self)@,
            final(self)@.players.len() == old(self)@.players.len(),
            total_wealth(final(self)@.players) == total_wealth(old(self)@.players),
            final(self)@.hand_number >= old(self)@.hand_number,
            old(self)@.phase != Phase::Lobby ==> final(self)@.phase != Phase::Lobby,
            final(self)@.max_players == old(self)@.max_players,
            final(self)@.starting_stack == old(self)@.starting_stack,
    {
        let ghost mut decks: Seq<Seq<crate::card::Card>> = Seq::empty();
        while self.awaits_deal() && self.hand_number < usize::MAX
            invariant
                self@.wf(),
                old(self)@.ready() ==> self@.ready(),
                old(self)@.bets_in_line() ==> self@.bets_in_line(),
                old(self)@.can_deal_all(decks),
                self@ == old(self)@.dealt_all(decks),
                old(self)@.phase != Phase::HandComplete ==> self@ == old(self)@,
                self@.players.len() == old(self)@.players.len(),
                total_wealth(self@.players) == total_wealth(old(self)@.players),
                self@.hand_number >= old(self)@.hand_number,
                old(self)@.phase != Phase::Lobby ==> self@.phase != Phase::Lobby,
                self@.max_players == old(self)@.max_players,
                self@.starting_stack == old(self)@.starting_stack,
            decreases usize::MAX - self.hand_number,
        {
            proof {
                lemma_active_upto(self@.players, self@.players.len() as int);
            }
            let seats: usize = self.active_players().len();
            let cards = draw_hand(seats);
            proof {
                law_deal_keeps_table(self@, cards@);
                crate::laws::lemma_hand_dealt_settings(self@, cards@);
            }
            let ghost before = decks;
            let _ = self.deal(&cards);
            proof {
                decks = before.push(cards@);
                assert(decks.drop_last() =~= before);
            }
        }
    }

    /// Starts the game and deals the first hand. Says whether the game has
    /// started; it does where it has not started before and two or more
    /// players have joined, each with chips.
    pub fn start(&mut self) -> (ok: bool)
        requires
            old(self)@.wf(),
        ensures
            ok == old(self)@.can_open(),
            !ok ==> final(self)@ == old(self)@,
            ok ==> final(self)@.phase != Phase::Lobby && final(self)@.ready()
                && final(self)@.bets_in_line() && final(self)@.dealt_on_from(old(self)@.opened()),
            final(self)@.wf(),
            final(self)@.players.len() == old(self)@.players.len(),
            total_wealth(final(self)@.players) == total_wealth(old(self)@.players),
    {
        proof {
            law_start_keeps_table(self@);
        }
        if !self.begin() {
            return false;
        }
        self.deal_out();
        true
    }

    /// Takes a request of the player to act and carries it out: the legal
    /// move that stands for it is made and told, and the hand ends, or the
    /// next round begins, or the turn passes. Outside a hand nothing
    /// happens.
    pub fn apply_action(&mut self, action: Action)
        requires
            old(self)@.wf(),
        ensures
            final(self)@ == old(self)@.acted(action),
            final(self)@.wf(),
            final(self)@.ready(),
            old(self)@.bets_in_line() && !(action is PostBlind) ==> final(self)@.bets_in_line(),
            final(self)@.players.len() == old(self)@.players.len(),
            total_wealth(final(self)@.players) == total_wealth(old(self)@.players),
    {
        proof {
            law_action_keeps_table(self@, action);
            crate::laws::law_turn_is_with_a_player_who_can_act(self@, action, Seq::empty());
            if self@.phase == Phase::InHand && self@.bets_in_line() && !(action is PostBlind) {
                crate::laws::law_action_is_legal(self@, action);
            }
        }
        if !self.in_hand() {
            return ;
        }
        let i: usize = self.to_act;
        let m: Action = interpret(
            action,
            self.players[i].street_contrib,
            self.players[i].chips,
            self.players[i].has_option,
            self.current_bet,
            self.min_raise,
        );
        proof {
            lemma_legal(self@, action);
        }
        self.make_move(m);
        if self.is_hand_over() {
            self.end_hand();
        } else if self.is_street_over() {
            self.next_street();
        } else {
            self.pass_turn();
        }
    }

    /// Takes a request of the player to act, carries it out, and deals the
    /// next hand where the hand has ended and the game goes on.
    ///
    /// # Requests
    /// * `Bet(amount)` moves chips from the stack to the table, which may
    ///   be a call, a bet or a raise. Less than a call is a call, a raise
    ///   of less than the minimum is the minimum raise, and more than the
    ///   stack is the stack. `Bet(0)` is a check where that is legal, else a
    ///   fold.
    /// * `Check` checks where that is legal, else it folds.
    /// * `Fold` folds.
    /// * `Call` matches the bet, or checks.
    /// * `AllIn` bets the stack.
    pub fn player_action(&mut self, recv_action: Action)
        requires
            old(self)@.wf(),
        ensures
            final(self)@.wf(),
            final(self)@.ready(),
            old(self)@.bets_in_line() && !(recv_action is PostBlind)
                ==> final(self)@.bets_in_line(),
            final(self)@.dealt_on_from(old(self)@.acted(recv_action)),
            old(self)@.acted(recv_action).phase != Phase::HandComplete
                ==> final(self)@ == old(self)@.acted(recv_action),
            final(self)@.players.len() == old(self)@.players.len(),
            total_wealth(final(self)@.players) == total_wealth(old(self)@.players),
            final(self)@.hand_number >= old(self)@.hand_number,
            final(self)@.max_players == old(self)@.max_players,
            final(self)@.starting_stack == old(self)@.starting_stack,
    {
        proof {
            crate::laws::lemma_acted_settings(self@, recv_action);
        }
        self.apply_action(recv_action);
        self.deal_out();
    }

    /// Takes the messages that wait to be sent out of the outbox.
    pub fn take_events(&mut self) -> (events: Vec<Outbound>)
        requires
            old(self)@.wf(),
        ensures
            crate::event::outbox_view(events@) == old(self)@.outbox,
            final(self)@ == (GameView { outbox: Seq::empty(), ..old(self)@ }),
            final(self)@.wf(),
    {
        let mut events: Vec<Outbound> = Vec::new();
        std::mem::swap(&mut events, &mut self.outbox);
        assert(self@.outbox =~= Seq::empty());
        events
    }
}

} // verus!
