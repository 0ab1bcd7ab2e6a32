//! What a player may ask for, and the legal move that the table makes of it.

use vstd::prelude::*;

verus! {

/// The four betting rounds of a hand.
#[derive(Clone, Copy, Debug, PartialEq, Eq, Structural)]
pub enum Street {
    PreFlop,
    Flop,
    Turn,
    River,
}

impl Street {
    /// The round that follows; the river is the last.
    pub open spec fn following(self) -> Street {
        match self {
            Street::PreFlop => Street::Flop,
            Street::Flop => Street::Turn,
            Street::Turn => Street::River,
            Street::River => Street::River,
        }
    }

    /// The name of the round in a message.
    pub open spec fn name_text(self) -> Seq<char> {
        match self {
            Street::PreFlop => "PreFlop"@,
            Street::Flop => "Flop"@,
            Street::Turn => "Turn"@,
            Street::River => "River"@,
        }
    }

    pub fn name(&self) -> (text: &'static str)
        ensures
            text@ == self.name_text(),
    {
        match *self {
            Street::PreFlop => "PreFlop",
            Street::Flop => "Flop",
            Street::Turn => "Turn",
            Street::River => "River",
        }
    }

    pub fn next(&self) -> (s: Street)
        ensures
            s == self.following(),
    {
        match *self {
            Street::PreFlop => Street::Flop,
            Street::Flop => Street::Turn,
            Street::Turn => Street::River,
            Street::River => Street::River,
        }
    }
}

/// A move at the table. `Bet` and `PostBlind` carry the chips that go from
/// the stack to the table with this move, not the total of the round.
#[derive(Clone, Copy, Debug, PartialEq, Eq, Structural)]
pub enum Action {
    Fold,
    Check,
    Bet(usize),
    PostBlind(usize),
    Call,
    AllIn,
}

impl Action {
    /// A move as the table applies it: `Call` and `AllIn` are requests only.
    pub open spec fn is_plain(self) -> bool {
        !(self is Call) && !(self is AllIn)
    }

    /// The chips that the move takes from the stack.
    pub open spec fn amount(self) -> int {
        match self {
            Action::Bet(b) => b as int,
            Action::PostBlind(b) => b as int,
            _ => 0,
        }
    }
}

/// The smaller of two numbers.
pub open spec fn lesser(a: int, b: int) -> int {
    if a <= b {
        a
    } else {
        b
    }
}

/// The legal move that stands for a request.
///
/// The player has `street_contrib` chips on the table in this round and
/// `chips` behind, the round's bet stands at `current_bet` and a raise must
/// add at least `min_raise` to it. No request is refused:
/// - a check that is not free becomes a fold;
/// - a call takes what is missing to the bet, a check where nothing is;
/// - a bet of nothing is a check where the bet is nothing or the player holds
///   the option at the level of the bet, else a fold;
/// - a bet short of the current bet becomes a call, a raise short of the
///   minimum becomes the minimum raise;
/// - no move takes more than the stack.
pub open spec fn normalize(
    action: Action,
    street_contrib: usize,
    chips: usize,
    has_option: bool,
    current_bet: usize,
    min_raise: usize,
) -> Action {
    match action {
        Action::Fold => Action::Fold,
        Action::Check => if street_contrib == current_bet {
            Action::Check
        } else {
            Action::Fold
        },
        Action::Call => if street_contrib >= current_bet {
            Action::Check
        } else {
            Action::Bet(lesser(chips as int, current_bet - street_contrib) as usize)
        },
        Action::AllIn => Action::Bet(chips),
        Action::Bet(bet) => if bet == 0 {
            if current_bet == 0 || (has_option && street_contrib == current_bet) {
                Action::Check
            } else {
                Action::Fold
            }
        } else if street_contrib + bet == current_bet {
            Action::Bet(lesser(chips as int, bet as int) as usize)
        } else if street_contrib + bet < current_bet {
            Action::Bet(lesser(chips as int, current_bet - street_contrib) as usize)
        } else if street_contrib + bet - current_bet < min_raise {
            Action::Bet(lesser(chips as int, current_bet - street_contrib + min_raise) as usize)
        } else {
            Action::Bet(lesser(chips as int, bet as int) as usize)
        },
        Action::PostBlind(blind) => Action::PostBlind(lesser(chips as int, blind as int) as usize),
    }
}

/// Turns a request into the legal move that stands for it.
pub fn interpret(
    action: Action,
    street_contrib: usize,
    chips: usize,
    has_option: bool,
    current_bet: usize,
    min_raise: usize,
) -> (legal: Action)
    ensures
        legal == normalize(action, street_contrib, chips, has_option, current_bet, min_raise),
        legal.is_plain(),
        legal.amount() <= chips,
{
    match action {
        Action::Fold => Action::Fold,
        Action::Check => {
            if street_contrib == current_bet {
                Action::Check
            } else {
                Action::Fold
            }
        },
        Action::Call => {
            if street_contrib >= current_bet {
                Action::Check
            } else {
                let missing: usize = current_bet - street_contrib;
                if chips <= missing {
                    Action::Bet(chips)
                } else {
                    Action::Bet(missing)
                }
            }
        },
        Action::AllIn => Action::Bet(chips),
        Action::Bet(bet) => {
            if bet == 0 {
                if current_bet == 0 || (has_option && street_contrib == current_bet) {
                    Action::Check
                } else {
                    Action::Fold
                }
            } else {
                let total: u128 = street_contrib as u128 + bet as u128;
                if total < current_bet as u128 {
                    let missing: usize = current_bet - street_contrib;
                    if chips <= missing {
                        Action::Bet(chips)
                    } else {
                        Action::Bet(missing)
                    }
                } else if total > current_bet as u128 && total - (current_bet as u128)
                    < min_raise as u128 {
                    let target: u128 = current_bet as u128 + min_raise as u128
                        - street_contrib as u128;
                    if chips as u128 <= target {
                        Action::Bet(chips)
                    } else {
                        Action::Bet(target as usize)
                    }
                } else if chips <= bet {
                    Action::Bet(chips)
                } else {
                    Action::Bet(bet)
                }
            }
        },
        Action::PostBlind(blind) => {
            if chips <= blind {
                Action::PostBlind(chips)
            } else {
                Action::PostBlind(blind)
            }
        },
    }
}

/// Interpreting twice changes nothing: the legal move that stands for a
/// request stands for itself, for a player who has chips and no more on the
/// table than the bet.
pub proof fn law_interpret_idempotent(
    action: Action,
    street_contrib: usize,
    chips: usize,
    has_option: bool,
    current_bet: usize,
    min_raise: usize,
)
    requires
        chips > 0,
        street_contrib <= current_bet,
    ensures
        normalize(
            normalize(action, street_contrib, chips, has_option, current_bet, min_raise),
            street_contrib,
            chips,
            has_option,
            current_bet,
            min_raise,
        ) == normalize(action, street_contrib, chips, has_option, current_bet, min_raise),
{
}

/// No legal move takes more chips than the player has, so a stack never
/// falls below zero.
pub proof fn law_move_within_stack(
    action: Action,
    street_contrib: usize,
    chips: usize,
    has_option: bool,
    current_bet: usize,
    min_raise: usize,
)
    ensures
        0 <= normalize(
            action,
            street_contrib,
            chips,
            has_option,
            current_bet,
            min_raise,
        ).amount() <= chips,
        normalize(action, street_contrib, chips, has_option, current_bet, min_raise).is_plain(),
{
}

/// What a legal bet does to the round: it matches the bet, or it raises by
/// at least the minimum, or it is all that the player has. Nothing else
/// comes out of a request, whatever was asked for.
pub proof fn law_bet_is_legal(
    action: Action,
    street_contrib: usize,
    chips: usize,
    has_option: bool,
    current_bet: usize,
    min_raise: usize,
)
    requires
        !(action is PostBlind),
        street_contrib <= current_bet,
    ensures
        normalize(
            action,
            street_contrib,
            chips,
            has_option,
            current_bet,
            min_raise,
        ) matches Action::Bet(b) ==> b == chips || street_contrib + b == current_bet
            || street_contrib + b - current_bet >= min_raise,
        normalize(action, street_contrib, chips, has_option, current_bet, min_raise) is Check
            ==> street_contrib == current_bet,
        !(normalize(
            action,
            street_contrib,
            chips,
            has_option,
            current_bet,
            min_raise,
        ) is PostBlind),
{
}

} // verus!
