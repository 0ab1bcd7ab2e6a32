//! The tables of a server, and the commands that reach a table by its name.

use crate::action::Action;
use crate::deck::MAX_SEATS;
use crate::game::{total_wealth, Game, GameView, Phase};
use vstd::prelude::*;

verus! {

/// Why a command was refused.
#[derive(Clone, Copy, Debug, PartialEq, Eq, Structural)]
pub enum Refusal {
    AlreadyStarted,
    BadConfigOption,
    NoSpace,
    NotYourTurn,
}

/// The answer to a command.
#[derive(Clone, Copy, Debug, PartialEq, Eq, Structural)]
pub enum Reply {
    Accepted,
    Refused(Refusal),
}

impl Refusal {
    /// The reason as the caller reads it.
    pub open spec fn reason_text(self) -> Seq<char> {
        match self {
            Refusal::AlreadyStarted => "Game already started!"@,
            Refusal::BadConfigOption => "Bad config option!"@,
            Refusal::NoSpace => "No space to join this game"@,
            Refusal::NotYourTurn => "Not your turn!"@,
        }
    }

    pub fn reason(&self) -> (text: &'static str)
        ensures
            text@ == self.reason_text(),
    {
        match *self {
            Refusal::AlreadyStarted => "Game already started!",
            Refusal::BadConfigOption => "Bad config option!",
            Refusal::NoSpace => "No space to join this game",
            Refusal::NotYourTurn => "Not your turn!",
        }
    }
}

/// What `str::to_lowercase` makes of a text.
pub uninterp spec fn lowered(text: Seq<char>) -> Seq<char>;

/// `str::to_lowercase` of std: the text in lower case, which depends on the
/// text alone.
#[verifier::external_body]
pub(crate) fn lowercase(text: &str) -> (lower: String)
    ensures
        lower@ == lowered(text@),
{
    text.to_lowercase()
}

/// Whether two texts are the same.
pub fn same_text(a: &str, b: &str) -> (same: bool)
    ensures
        same == (a@ == b@),
{
    String::from_str(a) == String::from_str(b)
}

/// The request that a verb of the protocol stands for, in lower case:
/// `check`, `call`, `fold`, `allin`, or `bet` with its value. Any other
/// verb stands for nothing.
pub open spec fn verb_action(verb: Seq<char>, value: usize) -> Option<Action> {
    if verb == "check"@ {
        Some(Action::Check)
    } else if verb == "call"@ {
        Some(Action::Call)
    } else if verb == "fold"@ {
        Some(Action::Fold)
    } else if verb == "allin"@ {
        Some(Action::AllIn)
    } else if verb == "bet"@ {
        Some(Action::Bet(value))
    } else {
        None
    }
}

/// Reads a verb of the protocol.
pub fn parse_action(verb: &str, value: usize) -> (action: Option<Action>)
    ensures
        action == verb_action(verb@, value),
{
    if same_text(verb, "check") {
        Some(Action::Check)
    } else if same_text(verb, "call") {
        Some(Action::Call)
    } else if same_text(verb, "fold") {
        Some(Action::Fold)
    } else if same_text(verb, "allin") {
        Some(Action::AllIn)
    } else if same_text(verb, "bet") {
        Some(Action::Bet(value))
    } else {
        None
    }
}

impl GameView {
    /// The answer to a setting, whose name is in lower case. The settings
    /// are `starting_stack`, `max_players` and `start`; each is refused
    /// once the game has started, `max_players` also below the number of
    /// players, and `start` also where fewer than two players with chips
    /// have joined.
    pub open spec fn config_reply(self, option: Seq<char>, value: usize) -> Reply {
        if option == "starting_stack"@ {
            if self.phase == Phase::Lobby {
                Reply::Accepted
            } else {
                Reply::Refused(Refusal::AlreadyStarted)
            }
        } else if option == "max_players"@ {
            if self.phase == Phase::Lobby && value >= self.players.len() {
                Reply::Accepted
            } else {
                Reply::Refused(Refusal::AlreadyStarted)
            }
        } else if option == "start"@ {
            if self.can_open() {
                Reply::Accepted
            } else {
                Reply::Refused(Refusal::AlreadyStarted)
            }
        } else {
            Reply::Refused(Refusal::BadConfigOption)
        }
    }

    /// Whether `secret` is the token of the player whose turn it is.
    pub open spec fn is_turn_of(self, secret: u128) -> bool {
        self.to_act < self.players.len() && self.players[self.to_act as int].secret_id == secret
    }
}

impl Game {
    /// Changes a setting, or starts the game. `option` names the setting in
    /// lower case.
    pub fn configure(&mut self, option: &str, value: usize) -> (reply: Reply)
        requires
            old(self)@.wf(),
        ensures
            final(self)@.wf(),
            reply == old(self)@.config_reply(option@, value),
            reply != Reply::Accepted ==> final(self)@ == old(self)@,
            reply == Reply::Accepted && option@ == "starting_stack"@ ==> final(self)@ == (GameView {
                starting_stack: value,
                ..old(self)@
            }),
            reply == Reply::Accepted && option@ != "starting_stack"@ && option@ == "max_players"@
                ==> final(self)@ == (GameView { max_players: value, ..old(self)@ }),
            reply == Reply::Accepted && option@ != "starting_stack"@ && option@ != "max_players"@
                ==> final(self)@.dealt_on_from(old(self)@.opened()) && final(self)@.phase
                != Phase::Lobby && final(self)@.players.len() == old(self)@.players.len()
                && total_wealth(final(self)@.players) == total_wealth(old(self)@.players),
    {
        let success: bool;
        if same_text(option, "starting_stack") {
            success = self.set_starting_stack(value);
        } else if same_text(option, "max_players") {
            success = self.set_player_limit(value);
        } else if same_text(option, "start") {
            success = self.start();
        } else {
            return Reply::Refused(Refusal::BadConfigOption);
        }
        if success {
            Reply::Accepted
        } else {
            Reply::Refused(Refusal::AlreadyStarted)
        }
    }

    /// Lets a player join.
    pub fn register(&mut self, name: &str, address: &str) -> (reply: Reply)
        requires
            old(self)@.wf(),
        ensures
            final(self)@.wf(),
            reply == (if old(self)@.can_join() {
                Reply::Accepted
            } else {
                Reply::Refused(Refusal::NoSpace)
            }),
            reply != Reply::Accepted ==> final(self)@ == old(self)@,
            reply == Reply::Accepted
                ==> old(self)@.can_seat(final(self)@.seat_order) && final(self)@
                == old(self)@.seated(
                name@,
                address@,
                final(self)@.players.last().secret_id,
                final(self)@.seat_order,
            ),
    {
        if self.add_player(name, address) {
            Reply::Accepted
        } else {
            Reply::Refused(Refusal::NoSpace)
        }
    }

    /// Takes a move of the player who holds the token `secret`. The move is
    /// refused where it is not that player's turn; a verb that stands for
    /// nothing is passed over. `verb` is in lower case.
    pub fn action(&mut self, secret: u128, verb: &str, value: usize) -> (reply: Reply)
        requires
            old(self)@.wf(),
        ensures
            final(self)@.wf(),
            reply == (if old(self)@.is_turn_of(secret) {
                Reply::Accepted
            } else {
                Reply::Refused(Refusal::NotYourTurn)
            }),
            reply != Reply::Accepted || verb_action(verb@, value) is None
                ==> final(self)@ == old(self)@,
            reply == Reply::Accepted ==> (verb_action(verb@, value) matches Some(a)
                ==> final(self)@.dealt_on_from(old(self)@.acted(a))),
            final(self)@.players.len() == old(self)@.players.len(),
            total_wealth(final(self)@.players) == total_wealth(old(self)@.players),
    {
        if self.to_act >= self.players.len() || self.players[self.to_act].secret_id != secret {
            return Reply::Refused(Refusal::NotYourTurn);
        }
        match parse_action(verb, value) {
            Some(action) => {
                self.player_action(action);
            },
            None => {},
        }
        Reply::Accepted
    }
}

/// The tables of a server, each under its name.
#[derive(Debug)]
pub struct Tables {
    pub ids: Vec<String>,
    pub games: Vec<Game>,
}

/// The table that a name stands for before anybody has used the name: in
/// the lobby, with a starting stack of 200 and room for ten.
pub open spec fn new_table() -> GameView {
    GameView {
        board: Seq::empty(),
        players: Seq::empty(),
        seat_order: Seq::empty(),
        street: crate::action::Street::River,
        to_act: 0,
        phase: Phase::Lobby,
        max_players: 10,
        starting_stack: 200,
        current_bet: 0,
        min_raise: 2,
        hand_number: 0,
        outbox: Seq::empty(),
    }
}

impl Tables {
    /// Every name has its table, no name occurs twice, and every table is
    /// well formed.
    pub open spec fn wf(&self) -> bool {
        &&& self.ids.len() == self.games.len()
        &&& forall|i: int| 0 <= i < self.games.len() ==> (#[trigger] self.games[i])@.wf()
        &&& forall|i: int, j: int|
            0 <= i < j < self.ids.len() ==> (#[trigger] self.ids[i])@ != (#[trigger] self.ids[j])@
    }

    /// Whether there is a table under the name.
    pub open spec fn has(&self, id: Seq<char>) -> bool {
        exists|i: int| 0 <= i < self.ids.len() && (#[trigger] self.ids[i])@ == id
    }

    /// The place of the table under the name.
    pub open spec fn slot(&self, id: Seq<char>) -> int {
        choose|i: int| 0 <= i < self.ids.len() && (#[trigger] self.ids[i])@ == id
    }

    /// The table that the name stands for: the one under the name, or a
    /// new one.
    pub open spec fn table(&self, id: Seq<char>) -> GameView {
        if self.has(id) {
            self.games[self.slot(id)]@
        } else {
            new_table()
        }
    }

    /// The other tables are what they were.
    pub open spec fn others_kept(&self, before: &Tables, id: Seq<char>) -> bool {
        forall|other: Seq<char>| other != id ==> #[trigger] self.table(other) == before.table(other)
    }

    /// Whether the tables are well formed. Every command keeps them so;
    /// tables whose fields were written from outside may not be.
    pub fn is_well_formed(&self) -> (ok: bool)
        ensures
            ok == self.wf(),
    {
        let n: usize = self.ids.len();
        if self.games.len() != n {
            return false;
        }
        let mut i: usize = 0;
        while i < n
            invariant
                n == self.ids.len(),
                n == self.games.len(),
                i <= n,
                forall|k: int| 0 <= k < i ==> (#[trigger] self.games[k])@.wf(),
                forall|k: int, m: int|
                    0 <= k < m < i ==> (#[trigger] self.ids[k])@ != (#[trigger] self.ids[m])@,
            decreases n - i,
        {
            if !self.games[i].is_well_formed() {
                assert(!self.games[i as int]@.wf());
                return false;
            }
            let mut j: usize = 0;
            while j < i
                invariant
                    n == self.ids.len(),
                    i < n,
                    j <= i,
                    forall|k: int| 0 <= k < j ==> (#[trigger] self.ids[k])@ != self.ids[i as int]@,
                decreases i - j,
            {
                if self.ids[j] == self.ids[i] {
                    assert(self.ids[j as int]@ == self.ids[i as int]@);
                    return false;
                }
                j = j + 1;
            }
            i = i + 1;
        }
        true
    }

    /// The place of the table under the name, if there is one.
    pub fn find(&self, game_id: &str) -> (place: Option<usize>)
        requires
            self.wf(),
        ensures
            place is Some == self.has(game_id@),
            place matches Some(i) ==> i == self.slot(game_id@) && i < self.games.len(),
    {
        let wanted = String::from_str(game_id);
        let mut i: usize = 0;
        while i < self.ids.len()
            invariant
                i <= self.ids.len(),
                self.wf(),
                wanted@ == game_id@,
                forall|j: int| 0 <= j < i ==> (#[trigger] self.ids[j])@ != game_id@,
            decreases self.ids.len() - i,
        {
            if self.ids[i] == wanted {
                assert(self.ids[i as int]@ == game_id@);
                let ghost s = self.slot(game_id@);
                assert(s == i) by {
                    if s < i {
                        assert(self.ids[s]@ != self.ids[i as int]@);
                    } else if i < s {
                        assert(self.ids[i as int]@ != self.ids[s]@);
                    }
                }
                return Some(i);
            }
            i = i + 1;
        }
        None
    }

    /// The place of the table under the name, which is set up where there
    /// is none.
    pub fn open(&mut self, game_id: &str) -> (place: usize)
        requires
            old(self).wf(),
        ensures
            final(self).wf(),
            place < final(self).games.len(),
            final(self).has(game_id@),
            place == final(self).slot(game_id@),
            final(self).games[place as int]@ == old(self).table(game_id@),
            final(self).others_kept(old(self), game_id@),
            old(self).has(game_id@) ==> final(self).ids@ == old(self).ids@ && final(self).games@
                == old(self).games@,
    {
        match self.find(game_id) {
            Some(i) => {
                assert forall|other: Seq<char>| other != game_id@ implies #[trigger] self.table(
                    other,
                ) == old(self).table(other) by {}
                i
            },
            None => {
                let n: usize = self.ids.len();
                self.ids.push(String::from_str(game_id));
                self.games.push(Game::new(200));
                assert(self.games[n as int]@ =~= new_table());
                assert(self.ids[n as int]@ == game_id@);
                let ghost s = self.slot(game_id@);
                assert(s == n) by {
                    if s < n {
                        assert(old(self).ids[s]@ == game_id@);
                    }
                }
                assert forall|other: Seq<char>| other != game_id@ implies #[trigger] self.table(
                    other,
                ) == old(self).table(other) by {
                    if old(self).has(other) {
                        let k = old(self).slot(other);
                        assert(self.ids[k]@ == other);
                        let t = self.slot(other);
                        if t < k {
                            assert(self.ids[t]@ != self.ids[k]@);
                        } else if k < t {
                            assert(self.ids[k]@ != self.ids[t]@);
                        }
                    } else if self.has(other) {
                        let t = self.slot(other);
                        assert(t < n);
                        assert(old(self).ids[t]@ == other);
                    }
                }
                n
            },
        }
    }

    /// After a change to the table at `place` only, the other tables are
    /// what they were.
    pub proof fn lemma_one_changed(&self, before: &Tables, place: int)
        requires
            before.wf(),
            0 <= place < before.games.len(),
            self.ids@ == before.ids@,
            self.games.len() == before.games.len(),
            forall|i: int|
                0 <= i < before.games.len() && i != place ==> self.games[i] == before.games[i],
        ensures
            self.others_kept(before, before.ids[place]@),
            self.has(before.ids[place]@),
            self.slot(before.ids[place]@) == place,
            self.table(before.ids[place]@) == self.games[place]@,
    {
        let id = before.ids[place]@;
        assert(self.ids[place]@ == id);
        let s = self.slot(id);
        if s < place {
            assert(before.ids[s]@ != before.ids[place]@);
        } else if place < s {
            assert(before.ids[place]@ != before.ids[s]@);
        }
        assert forall|other: Seq<char>| other != id implies #[trigger] self.table(other)
            == before.table(other) by {
            if before.has(other) {
                let k = before.slot(other);
                assert(self.ids[k]@ == other);
                assert(self.slot(other) == before.slot(other));
            } else if self.has(other) {
                let t = self.slot(other);
                assert(before.ids[t]@ == other);
            }
        }
    }

    /// Changes a setting of the table under the name, or starts its game.
    /// The name of the setting is read without regard to case.
    pub fn configure_game(&mut self, game_id: &str, config: &str, value: usize) -> (reply: Reply)
        requires
            old(self).wf(),
        ensures
            final(self).wf(),
            final(self).has(game_id@),
            final(self).others_kept(old(self), game_id@),
            reply == old(self).table(game_id@).config_reply(lowered(config@), value),
            reply != Reply::Accepted ==> final(self).table(game_id@) == old(self).table(game_id@),
            reply == Reply::Accepted && lowered(config@) == "starting_stack"@ ==> final(self).table(
                game_id@,
            ) == (GameView { starting_stack: value, ..old(self).table(game_id@) }),
            reply == Reply::Accepted && lowered(config@) != "starting_stack"@ && lowered(config@)
                == "max_players"@ ==> final(self).table(game_id@) == (GameView {
                max_players: value,
                ..old(self).table(game_id@)
            }),
            reply == Reply::Accepted && lowered(config@) != "starting_stack"@ && lowered(config@)
                != "max_players"@ ==> final(self).table(game_id@).dealt_on_from(
                old(self).table(game_id@).opened(),
            ) && final(self).table(game_id@).phase != Phase::Lobby && total_wealth(
                final(self).table(game_id@).players,
            ) == total_wealth(old(self).table(game_id@).players),
    {
        let place: usize = self.open(game_id);
        let ghost opened = *self;
        let option: String = lowercase(config);
        let reply = self.games[place].configure(option.as_str(), value);
        proof {
            self.lemma_one_changed(&opened, place as int);
            assert forall|other: Seq<char>| other != game_id@ implies #[trigger] self.table(other)
                == old(self).table(other) by {
                assert(opened.table(other) == old(self).table(other));
            }
        }
        reply
    }

    /// Lets a player join the table under the name.
    pub fn join_game(&mut self, game_id: &str, name: &str, address: &str) -> (reply: Reply)
        requires
            old(self).wf(),
        ensures
            final(self).wf(),
            final(self).has(game_id@),
            final(self).others_kept(old(self), game_id@),
            reply == (if old(self).table(game_id@).can_join() {
                Reply::Accepted
            } else {
                Reply::Refused(Refusal::NoSpace)
            }),
            reply != Reply::Accepted ==> final(self).table(game_id@) == old(self).table(game_id@),
            reply == Reply::Accepted ==> old(self).table(game_id@).can_seat(
                final(self).table(game_id@).seat_order,
            ) && final(self).table(game_id@) == old(self).table(game_id@).seated(
                name@,
                address@,
                final(self).table(game_id@).players.last().secret_id,
                final(self).table(game_id@).seat_order,
            ),
    {
        let place: usize = self.open(game_id);
        let ghost opened = *self;
        let reply = self.games[place].register(name, address);
        proof {
            self.lemma_one_changed(&opened, place as int);
            assert forall|other: Seq<char>| other != game_id@ implies #[trigger] self.table(other)
                == old(self).table(other) by {
                assert(opened.table(other) == old(self).table(other));
            }
        }
        reply
    }

    /// Takes a move at the table under the name from the player who holds
    /// the token. The verb is read without regard to case.
    pub fn make_move(
        &mut self,
        game_id: &str,
        secret_id: u128,
        action: &str,
        value: usize,
    ) -> (reply: Reply)
        requires
            old(self).wf(),
        ensures
            final(self).wf(),
            final(self).has(game_id@),
            final(self).others_kept(old(self), game_id@),
            reply == (if old(self).table(game_id@).is_turn_of(secret_id) {
                Reply::Accepted
            } else {
                Reply::Refused(Refusal::NotYourTurn)
            }),
            reply != Reply::Accepted || verb_action(lowered(action@), value) is None
                ==> final(self).table(game_id@) == old(self).table(game_id@),
            reply == Reply::Accepted ==> (verb_action(lowered(action@), value) matches Some(a)
                ==> final(self).table(game_id@).dealt_on_from(
                old(self).table(game_id@).acted(a),
            )),
            total_wealth(final(self).table(game_id@).players) == total_wealth(
                old(self).table(game_id@).players,
            ),
    {
        let place: usize = self.open(game_id);
        let ghost opened = *self;
        let verb: String = lowercase(action);
        let reply = self.games[place].action(secret_id, verb.as_str(), value);
        proof {
            self.lemma_one_changed(&opened, place as int);
            assert forall|other: Seq<char>| other != game_id@ implies #[trigger] self.table(other)
                == old(self).table(other) by {
                assert(opened.table(other) == old(self).table(other));
            }
        }
        reply
    }
}

/// The state that a server starts with: no table yet.
pub fn rocket() -> (tables: Tables)
    ensures
        tables.wf(),
        tables.ids@.len() == 0,
        forall|id: Seq<char>| !tables.has(id),
{
    Tables { ids: Vec::new(), games: Vec::new() }
}

} // verus!
