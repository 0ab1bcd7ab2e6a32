//! The messages that a table sends to its players.

use crate::action::Street;
use crate::card::Card;
use vstd::prelude::*;

verus! {

/// The kind of a move, as the players are told of it.
#[derive(Clone, Copy, Debug, PartialEq, Eq, Structural)]
pub enum MoveType {
    Check,
    Fold,
    Bet,
    Blind,
}

impl MoveType {
    /// The name of the kind in a message.
    pub open spec fn name_text(self) -> Seq<char> {
        match self {
            MoveType::Check => "Check"@,
            MoveType::Fold => "Fold"@,
            MoveType::Bet => "Bet"@,
            MoveType::Blind => "Blind"@,
        }
    }

    pub fn name(&self) -> (text: &'static str)
        ensures
            text@ == self.name_text(),
    {
        match *self {
            MoveType::Check => "Check",
            MoveType::Fold => "Fold",
            MoveType::Bet => "Bet",
            MoveType::Blind => "Blind",
        }
    }
}

/// Why a hand was paid out.
#[derive(Clone, Copy, Debug, PartialEq, Eq, Structural)]
pub enum PayoutReason {
    /// Two or more players showed their hands.
    Showdown,
    /// All but one player folded.
    AllFolded,
}

impl PayoutReason {
    /// The name of the reason in a message.
    pub open spec fn name_text(self) -> Seq<char> {
        match self {
            PayoutReason::Showdown => "Showdown"@,
            PayoutReason::AllFolded => "AllFolded"@,
        }
    }

    pub fn name(&self) -> (text: &'static str)
        ensures
            text@ == self.name_text(),
    {
        match *self {
            PayoutReason::Showdown => "Showdown",
            PayoutReason::AllFolded => "AllFolded",
        }
    }
}

/// A message to the players of a table.
#[derive(Debug, PartialEq, Eq)]
#[allow(inconsistent_fields)]
pub enum Event {
    /// To one player at the start: the seat id and the token.
    PlayerPrivateInfo { ingame_id: usize, secret_id: u128 },
    /// To all at the start: the table as it is seated.
    GameTableInfo {
        starting_stack: usize,
        seat_order: Vec<usize>,
        button_player: usize,
        display_names: Vec<(usize, String)>,
    },
    /// To one player at the deal: the player's two cards.
    HoleCardInfo { hole_cards: (Card, Card), hand_number: usize },
    /// A betting round begins, with the community cards that it reveals.
    StreetInfo {
        street: Street,
        button_player: usize,
        board_cards_revealed: Vec<Card>,
        hand_number: usize,
    },
    /// It is this player's turn.
    ToMoveInfo { player_id: usize, hand_number: usize },
    /// A player has moved.
    MoveInfo { player_id: usize, move_type: MoveType, value: usize, hand_number: usize },
    /// The hand is over: what each player is paid, and the hands shown.
    PayoutInfo {
        reason: PayoutReason,
        payouts: Vec<(usize, usize)>,
        hole_cards: Vec<(usize, (Card, Card))>,
        hand_number: usize,
    },
    /// A player has lost the last chip.
    PlayerEliminatedInfo { eliminated_player: usize, hand_number: usize },
    /// One player holds all the chips.
    GameOverInfo { winning_player: usize, hand_number: usize },
}

/// A message as a plain value.
#[verifier::ext_equal]
#[allow(inconsistent_fields)]
pub enum EventView {
    PlayerPrivateInfo { ingame_id: usize, secret_id: u128 },
    GameTableInfo {
        starting_stack: usize,
        seat_order: Seq<usize>,
        button_player: usize,
        display_names: Seq<(usize, Seq<char>)>,
    },
    HoleCardInfo { hole_cards: (Card, Card), hand_number: usize },
    StreetInfo {
        street: Street,
        button_player: usize,
        board_cards_revealed: Seq<Card>,
        hand_number: usize,
    },
    ToMoveInfo { player_id: usize, hand_number: usize },
    MoveInfo { player_id: usize, move_type: MoveType, value: usize, hand_number: usize },
    PayoutInfo {
        reason: PayoutReason,
        payouts: Seq<(usize, usize)>,
        hole_cards: Seq<(usize, (Card, Card))>,
        hand_number: usize,
    },
    PlayerEliminatedInfo { eliminated_player: usize, hand_number: usize },
    GameOverInfo { winning_player: usize, hand_number: usize },
}

impl EventView {
    /// The number of the hand that the message belongs to, or 0 for a
    /// message from before the first hand.
    pub open spec fn hand(self) -> usize {
        match self {
            EventView::PlayerPrivateInfo { .. } => 0,
            EventView::GameTableInfo { .. } => 0,
            EventView::HoleCardInfo { hand_number, .. } => hand_number,
            EventView::StreetInfo { hand_number, .. } => hand_number,
            EventView::ToMoveInfo { hand_number, .. } => hand_number,
            EventView::MoveInfo { hand_number, .. } => hand_number,
            EventView::PayoutInfo { hand_number, .. } => hand_number,
            EventView::PlayerEliminatedInfo { hand_number, .. } => hand_number,
            EventView::GameOverInfo { hand_number, .. } => hand_number,
        }
    }
}

impl EventView {
    /// The tag of the message, which is the name of its kind.
    pub open spec fn info_text(self) -> Seq<char> {
        match self {
            EventView::PlayerPrivateInfo { .. } => "PlayerPrivateInfo"@,
            EventView::GameTableInfo { .. } => "GameTableInfo"@,
            EventView::HoleCardInfo { .. } => "HoleCardInfo"@,
            EventView::StreetInfo { .. } => "StreetInfo"@,
            EventView::ToMoveInfo { .. } => "ToMoveInfo"@,
            EventView::MoveInfo { .. } => "MoveInfo"@,
            EventView::PayoutInfo { .. } => "PayoutInfo"@,
            EventView::PlayerEliminatedInfo { .. } => "PlayerEliminatedInfo"@,
            EventView::GameOverInfo { .. } => "GameOverInfo"@,
        }
    }
}

impl Event {
    /// The tag of the message, which is the name of its kind.
    pub fn info(&self) -> (text: &'static str)
        ensures
            text@ == self@.info_text(),
    {
        match self {
            Event::PlayerPrivateInfo { .. } => "PlayerPrivateInfo",
            Event::GameTableInfo { .. } => "GameTableInfo",
            Event::HoleCardInfo { .. } => "HoleCardInfo",
            Event::StreetInfo { .. } => "StreetInfo",
            Event::ToMoveInfo { .. } => "ToMoveInfo",
            Event::MoveInfo { .. } => "MoveInfo",
            Event::PayoutInfo { .. } => "PayoutInfo",
            Event::PlayerEliminatedInfo { .. } => "PlayerEliminatedInfo",
            Event::GameOverInfo { .. } => "GameOverInfo",
        }
    }
}

/// Names as plain values.
pub open spec fn names_view(names: Seq<(usize, String)>) -> Seq<(usize, Seq<char>)> {
    Seq::new(names.len(), |i: int| (names[i].0, names[i].1@))
}

impl View for Event {
    type V = EventView;

    open spec fn view(&self) -> EventView {
        match *self {
            Event::PlayerPrivateInfo { ingame_id, secret_id } => EventView::PlayerPrivateInfo {
                ingame_id,
                secret_id,
            },
            Event::GameTableInfo {
                starting_stack,
                seat_order,
                button_player,
                display_names,
            } => EventView::GameTableInfo {
                starting_stack,
                seat_order: seat_order@,
                button_player,
                display_names: names_view(display_names@),
            },
            Event::HoleCardInfo { hole_cards, hand_number } => EventView::HoleCardInfo {
                hole_cards,
                hand_number,
            },
            Event::StreetInfo {
                street,
                button_player,
                board_cards_revealed,
                hand_number,
            } => EventView::StreetInfo {
                street,
                button_player,
                board_cards_revealed: board_cards_revealed@,
                hand_number,
            },
            Event::ToMoveInfo { player_id, hand_number } => EventView::ToMoveInfo {
                player_id,
                hand_number,
            },
            Event::MoveInfo { player_id, move_type, value, hand_number } => EventView::MoveInfo {
                player_id,
                move_type,
                value,
                hand_number,
            },
            Event::PayoutInfo { reason, payouts, hole_cards, hand_number } => {
                EventView::PayoutInfo {
                    reason,
                    payouts: payouts@,
                    hole_cards: hole_cards@,
                    hand_number,
                }
            },
            Event::PlayerEliminatedInfo {
                eliminated_player,
                hand_number,
            } => EventView::PlayerEliminatedInfo { eliminated_player, hand_number },
            Event::GameOverInfo { winning_player, hand_number } => EventView::GameOverInfo {
                winning_player,
                hand_number,
            },
        }
    }
}

/// A message with the players that it goes to.
#[derive(Debug, PartialEq, Eq)]
pub struct Outbound {
    pub recipients: Vec<usize>,
    pub event: Event,
}

#[verifier::ext_equal]
pub struct OutboundView {
    pub recipients: Seq<usize>,
    pub event: EventView,
}

impl View for Outbound {
    type V = OutboundView;

    open spec fn view(&self) -> OutboundView {
        OutboundView { recipients: self.recipients@, event: self.event@ }
    }
}

/// The messages as plain values.
pub open spec fn outbox_view(outbox: Seq<Outbound>) -> Seq<OutboundView> {
    Seq::new(outbox.len(), |i: int| outbox[i]@)
}

} // verus!
