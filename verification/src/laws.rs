//! What every step of the game keeps: the table stays well formed, and no
//! chip is lost or made.

use crate::action::{Action, Street};
use crate::card::Card;
use crate::event::EventView;
use crate::game::{
    able_flags,
    active_flags,
    active_ids,
    active_upto,
    live_flags,
    total_wealth,
    wealths,
    GameView,
    Phase,
};
use crate::player::PlayerView;
use crate::pot::{any, count, entitled, law_only_entitled_win, law_payouts_conserve_chips};
use crate::rank::rankable;
use crate::seating::{
    button_moved,
    is_seating,
    lemma_button_moved_is_seating,
    lemma_next_able_can_act,
    lemma_next_able_in_range,
    lemma_next_able_is_another,
    next_able,
    prev_able,
};
use crate::sums::{
    lemma_part_within_sum,
    lemma_sum_none_negative,
    lemma_sum_plus,
    lemma_sum_push,
    none_negative,
    plus,
    sum,
};
use vstd::prelude::*;

verus! {

/// No player has more chips than the table.
pub proof fn lemma_wealth_within_total(players: Seq<PlayerView>, i: int)
    requires
        0 <= i < players.len(),
    ensures
        0 <= players[i].wealth() <= total_wealth(players),
{
    lemma_part_within_sum(wealths(players), i);
}

/// Players with the same chips each have the same chips together.
pub proof fn lemma_same_wealth(a: Seq<PlayerView>, b: Seq<PlayerView>)
    requires
        a.len() == b.len(),
        forall|i: int| 0 <= i < a.len() ==> (#[trigger] a[i]).wealth() == b[i].wealth(),
    ensures
        total_wealth(a) == total_wealth(b),
{
    assert(wealths(a) =~= wealths(b));
}

/// A message of the current hand keeps the table well formed.
pub proof fn lemma_told(g: GameView, event: EventView)
    requires
        g.wf(),
        event.hand() == g.hand_number,
    ensures
        g.told(event).wf(),
        g.told(event).players == g.players,
        g.told(event).phase == g.phase,
{
    let h = g.told(event);
    assert forall|k: int, m: int| 0 <= k <= m < h.outbox.len() implies
        (#[trigger] h.outbox[k]).event.hand()
        <= (#[trigger] h.outbox[m]).event.hand() by {
        if m < g.outbox.len() {
            assert(g.outbox[k].event.hand() <= g.outbox[m].event.hand());
        } else if k < g.outbox.len() {
            assert(g.outbox[k].event.hand() <= g.hand_number);
        }
    }
}

/// The same for a message to one player.
pub proof fn lemma_told_one(g: GameView, id: usize, event: EventView)
    requires
        g.wf(),
        event.hand() == g.hand_number,
    ensures
        g.told_one(id, event).wf(),
        g.told_one(id, event).players == g.players,
        g.told_one(id, event).phase == g.phase,
{
    let h = g.told_one(id, event);
    assert forall|k: int, m: int| 0 <= k <= m < h.outbox.len() implies
        (#[trigger] h.outbox[k]).event.hand()
        <= (#[trigger] h.outbox[m]).event.hand() by {
        if m < g.outbox.len() {
            assert(g.outbox[k].event.hand() <= g.outbox[m].event.hand());
        } else if k < g.outbox.len() {
            assert(g.outbox[k].event.hand() <= g.hand_number);
        }
    }
}

/// A legal move keeps the table well formed and the chips at the table.
pub proof fn lemma_moved(g: GameView, m: Action)
    requires
        g.wf(),
        g.phase == Phase::InHand,
        m.is_plain(),
        m.amount() <= g.players[g.to_act as int].chips,
    ensures
        g.moved(m).wf(),
        g.moved(m).phase == Phase::InHand,
        g.moved(m).players.len() == g.players.len(),
        total_wealth(g.moved(m).players) == total_wealth(g.players),
        g.moved(m).hand_number == g.hand_number,
        g.players[g.to_act as int].street_contrib + m.amount() <= usize::MAX,
{
    let h = g.moved(m);
    let i = g.to_act as int;
    lemma_wealth_within_total(g.players, i);
    assert(g.players[i].sound());
    assert forall|j: int| 0 <= j < h.players.len() implies (#[trigger] h.players[j]).wealth()
        == g.players[j].wealth() && h.players[j].sound() && h.players[j].eliminated
        == g.players[j].eliminated && h.players[j].hole_cards == g.players[j].hole_cards by {
        if j != i {
            assert(g.players[j].sound());
        }
    }
    lemma_same_wealth(h.players, g.players);
    assert forall|j: int|
        0 <= j < h.players.len() && !(#[trigger] h.players[j]).eliminated implies
            h.players[j].hole_cards.len()
        == 2 && rankable(h.board + h.players[j].hole_cards) by {
        assert(!g.players[j].eliminated);
    }
}

/// Passing the turn keeps the table well formed.
pub proof fn lemma_turn_passed(g: GameView)
    requires
        g.wf(),
        g.phase == Phase::InHand,
    ensures
        g.turn_passed().wf(),
        g.turn_passed().phase == Phase::InHand,
        g.turn_passed().players == g.players,
        next_able(able_flags(g.players), g.seat_order, g.to_act) < g.players.len(),
{
    lemma_next_able_in_range(able_flags(g.players), g.seat_order, g.to_act);
    let next = next_able(able_flags(g.players), g.seat_order, g.to_act);
    let h = GameView { to_act: next, ..g };
    assert(h.wf());
    lemma_told(h, EventView::ToMoveInfo { player_id: next, hand_number: g.hand_number });
}


/// Opening a betting round keeps the table well formed and the chips at
/// the table.
pub proof fn lemma_round_opened(g: GameView)
    requires
        g.wf(),
        g.phase == Phase::InHand,
    ensures
        g.round_opened().wf(),
        g.round_opened().phase == Phase::InHand,
        total_wealth(g.round_opened().players) == total_wealth(g.players),
        g.round_opened().players.len() == g.players.len(),
        next_able(able_flags(g.players), g.seat_order, g.seat_order[0]) < g.players.len(),
        prev_able(
            able_flags(g.players),
            g.seat_order,
            next_able(able_flags(g.players), g.seat_order, g.seat_order[0]),
        ) < g.players.len(),
{
    let able = able_flags(g.players);
    assert(g.seat_order[0] < g.players.len());
    lemma_next_able_in_range(able, g.seat_order, g.seat_order[0]);
    let first = next_able(able, g.seat_order, g.seat_order[0]);
    lemma_next_able_in_range(able, g.seat_order, first);
    let closer = prev_able(able, g.seat_order, first);
    let players = g.players.update(
        closer as int,
        PlayerView { has_option: true, ..g.players[closer as int] },
    );
    assert forall|j: int| 0 <= j < players.len() implies (#[trigger] players[j]).wealth()
        == g.players[j].wealth() && players[j].sound() && players[j].eliminated
        == g.players[j].eliminated && players[j].hole_cards == g.players[j].hole_cards by {
        assert(g.players[j].sound());
    }
    lemma_same_wealth(players, g.players);
    let h = GameView { players, to_act: first, ..g };
    assert forall|j: int|
        0 <= j < h.players.len() && !(#[trigger] h.players[j]).eliminated implies
            h.players[j].hole_cards.len()
        == 2 && rankable(h.board + h.players[j].hole_cards) by {
        assert(!g.players[j].eliminated);
    }
    assert(h.wf());
    let e1 = EventView::StreetInfo {
        street: g.street,
        button_player: g.seat_order[0],
        board_cards_revealed: crate::game::revealed(g.board, g.street),
        hand_number: g.hand_number,
    };
    lemma_told(h, e1);
    lemma_told(h.told(e1), EventView::ToMoveInfo { player_id: first, hand_number: g.hand_number });
}

/// The players at the end of a betting round have what they had.
pub proof fn lemma_round_closed(g: GameView)
    requires
        g.wf(),
        g.phase == Phase::InHand,
    ensures
        (GameView {
            players: g.round_closed(),
            current_bet: 0,
            min_raise: 2,
            street: g.street.following(),
            ..g
        }).wf(),
        total_wealth(g.round_closed()) == total_wealth(g.players),
        forall|i: int|
            0 <= i < g.players.len() ==> (#[trigger] g.players[i]).hand_contrib
                + g.players[i].street_contrib <= usize::MAX,
{
    let players = g.round_closed();
    assert forall|i: int| 0 <= i < g.players.len() implies (#[trigger] g.players[i]).hand_contrib
        + g.players[i].street_contrib <= usize::MAX by {
        lemma_wealth_within_total(g.players, i);
    }
    assert forall|j: int| 0 <= j < players.len() implies (#[trigger] players[j]).wealth()
        == g.players[j].wealth() && players[j].sound() && players[j].eliminated
        == g.players[j].eliminated && players[j].hole_cards == g.players[j].hole_cards by {
        assert(g.players[j].sound());
    }
    lemma_same_wealth(players, g.players);
    let h = GameView {
        players,
        current_bet: 0,
        min_raise: 2,
        street: g.street.following(),
        ..g
    };
    assert forall|j: int|
        0 <= j < h.players.len() && !(#[trigger] h.players[j]).eliminated implies
            h.players[j].hole_cards.len()
        == 2 && rankable(h.board + h.players[j].hole_cards) by {
        assert(!g.players[j].eliminated);
    }
}

/// The start of a betting round keeps the table well formed and the chips
/// at the table.
pub proof fn lemma_street_dealt(g: GameView)
    requires
        g.wf(),
        g.phase == Phase::InHand,
    ensures
        g.street_dealt().wf(),
        g.street_dealt().phase == Phase::InHand,
        total_wealth(g.street_dealt().players) == total_wealth(g.players),
        g.street_dealt().players.len() == g.players.len(),
{
    lemma_round_closed(g);
    lemma_round_opened(
        GameView {
            players: g.round_closed(),
            current_bet: 0,
            min_raise: 2,
            street: g.street.following(),
            ..g
        },
    );
}

/// Putting out the players without chips keeps the table well formed and
/// the chips at the table.
pub proof fn lemma_busted(g: GameView, k: int)
    requires
        g.wf(),
        g.phase == Phase::InHand,
        0 <= k <= g.players.len(),
        forall|i: int|
            0 <= i < g.players.len() ==> (#[trigger] g.players[i]).street_contrib == 0
                && g.players[i].hand_contrib == 0,
    ensures
        g.busted(k).wf(),
        g.busted(k).phase == Phase::InHand,
        g.busted(k).players.len() == g.players.len(),
        g.busted(k).hand_number == g.hand_number,
        total_wealth(g.busted(k).players) == total_wealth(g.players),
        forall|i: int|
            0 <= i < g.players.len() ==> (#[trigger] g.busted(k).players[i]).chips
                == g.players[i].chips && g.busted(k).players[i].street_contrib == 0
                && g.busted(k).players[i].hand_contrib == 0,
        forall|i: int| k <= i < g.players.len() ==> g.busted(k).players[i] == g.players[i],
        forall|i: int|
            0 <= i < k ==> (#[trigger] g.busted(k).players[i]).eliminated == (g.players[i].chips
                == 0),
    decreases k,
{
    if k > 0 {
        lemma_busted(g, k - 1);
        let b = g.busted(k - 1);
        let p = b.players[k - 1];
        assert(p == g.players[k - 1]);
        assert(p.sound());
        if p.chips == 0 && !p.eliminated {
            let players = b.players.update(
                k - 1,
                PlayerView { eliminated: true, folded: true, ..p },
            );
            let h = GameView { players, ..b };
            assert forall|j: int| 0 <= j < players.len() implies (#[trigger] players[j]).wealth()
                == b.players[j].wealth() && players[j].sound() by {
                assert(b.players[j].sound());
            }
            lemma_same_wealth(players, b.players);
            assert forall|j: int|
                0 <= j < h.players.len() && !(#[trigger] h.players[j]).eliminated implies
                    h.players[j].hole_cards.len()
                == 2 && rankable(h.board + h.players[j].hole_cards) by {
                assert(!b.players[j].eliminated);
            }
            assert(h.wf());
            lemma_told(
                h,
                EventView::PlayerEliminatedInfo {
                    eliminated_player: (k - 1) as usize,
                    hand_number: b.hand_number,
                },
            );
        }
    }
}

/// What a hand pays: to each player a number of chips that fit the stack,
/// together what was staked, and nothing to a player out of the game.
pub proof fn lemma_hand_payouts(g: GameView)
    requires
        g.wf(),
        g.phase == Phase::InHand,
    ensures
        g.hand_payouts().len() == g.players.len(),
        sum(g.hand_payouts()) == sum(g.hand_stakes()),
        sum(g.hand_stakes()) <= usize::MAX,
        none_negative(g.hand_stakes()),
        forall|i: int|
            0 <= i < g.players.len() ==> 0 <= (#[trigger] g.hand_payouts()[i])
                && g.players[i].chips + g.hand_payouts()[i] <= usize::MAX,
        forall|i: int|
            0 <= i < g.players.len() && (#[trigger] g.players[i]).eliminated
                ==> g.hand_payouts()[i] == 0,
        total_wealth(g.paid_out()) == total_wealth(g.players),
{
    let n = g.players.len();
    let stakes = g.hand_stakes();
    let live = live_flags(g.players);
    let st = g.hand_strengths();
    let pay = g.hand_payouts();
    law_payouts_conserve_chips(stakes, live, st, g.seat_order);
    let stacks = Seq::new(n, |i: int| g.players[i].chips as int);
    assert(wealths(g.players) =~= plus(stacks, stakes));
    lemma_sum_plus(stacks, stakes);
    lemma_sum_plus(stacks, pay);
    lemma_sum_none_negative(stacks);
    let target = plus(stacks, pay);
    assert forall|i: int| 0 <= i < n implies 0 <= (#[trigger] pay[i]) && g.players[i].chips + pay[i]
        <= usize::MAX by {
        lemma_part_within_sum(target, i);
    }
    assert forall|i: int| 0 <= i < n && (#[trigger] g.players[i]).eliminated implies pay[i]
        == 0 by {
        assert(g.players[i].sound());
        if any(entitled(stakes, live)) {
            law_only_entitled_win(stakes, live, st, g.seat_order, i);
        }
    }
    assert(wealths(g.paid_out()) =~= target);
}

/// The end of a hand keeps the table well formed and the chips at the
/// table, and leaves nothing on the table.
pub proof fn lemma_settled(g: GameView)
    requires
        g.wf(),
        g.phase == Phase::InHand,
    ensures
        g.settled().wf(),
        g.settled().phase == Phase::GameOver || g.settled().phase == Phase::HandComplete,
        g.settled().players.len() == g.players.len(),
        total_wealth(g.settled().players) == total_wealth(g.players),
{
    let n = g.players.len() as int;
    lemma_hand_payouts(g);
    let pay = g.hand_payouts();
    let h = GameView { players: g.paid_out(), ..g };
    assert forall|j: int| 0 <= j < h.players.len() implies (#[trigger] h.players[j]).sound()
        && h.players[j].eliminated == g.players[j].eliminated && h.players[j].hole_cards
        == g.players[j].hole_cards by {
        assert(g.players[j].sound());
    }
    assert forall|j: int|
        0 <= j < h.players.len() && !(#[trigger] h.players[j]).eliminated implies
            h.players[j].hole_cards.len()
        == 2 && rankable(h.board + h.players[j].hole_cards) by {
        assert(!g.players[j].eliminated);
    }
    assert(h.wf());
    lemma_told(h, g.payout_event());
    let paid = h.told(g.payout_event());
    lemma_busted(paid, n);
    let b = paid.busted(n);
    let alive = active_ids(b.players);
    if alive.len() == 1 {
        let over = GameView { phase: Phase::GameOver, ..b };
        assert(over.wf());
        lemma_told(
            over,
            EventView::GameOverInfo { winning_player: alive[0], hand_number: b.hand_number },
        );
    }
}

/// What follows a move keeps the table well formed and the chips at the
/// table.
pub proof fn lemma_carried_on(g: GameView)
    requires
        g.wf(),
        g.phase == Phase::InHand,
    ensures
        g.carried_on().wf(),
        g.carried_on().phase != Phase::Lobby,
        g.carried_on().players.len() == g.players.len(),
        total_wealth(g.carried_on().players) == total_wealth(g.players),
{
    if g.hand_over() {
        lemma_settled(g);
    } else if g.street_over() {
        lemma_street_dealt(g);
    } else {
        lemma_turn_passed(g);
    }
}

/// The legal move that stands for a request can be made.
pub proof fn lemma_legal(g: GameView, action: Action)
    requires
        g.wf(),
        g.phase == Phase::InHand,
    ensures
        g.legal(action).is_plain(),
        g.legal(action).amount() <= g.players[g.to_act as int].chips,
        g.moved(g.legal(action)).told(g.move_event(g.legal(action))).wf(),
        g.moved(g.legal(action)).told(g.move_event(g.legal(action))).phase == Phase::InHand,
        total_wealth(g.moved(g.legal(action)).told(g.move_event(g.legal(action))).players)
            == total_wealth(g.players),
        g.moved(g.legal(action)).told(g.move_event(g.legal(action))).players.len()
            == g.players.len(),
{
    let p = g.players[g.to_act as int];
    crate::action::law_move_within_stack(
        action,
        p.street_contrib,
        p.chips,
        p.has_option,
        g.current_bet,
        g.min_raise,
    );
    let m = g.legal(action);
    lemma_moved(g, m);
    lemma_told(g.moved(m), g.move_event(m));
}

/// Every request keeps the table well formed and the chips at the table:
/// no chip is lost or made, whatever is asked for.
pub proof fn law_action_keeps_table(g: GameView, action: Action)
    requires
        g.wf(),
    ensures
        g.acted(action).wf(),
        g.acted(action).players.len() == g.players.len(),
        total_wealth(g.acted(action).players) == total_wealth(g.players),
        g.phase != Phase::InHand ==> g.acted(action) == g,
{
    if g.phase == Phase::InHand {
        lemma_legal(g, action);
        let m = g.legal(action);
        lemma_carried_on(g.moved(m).told(g.move_event(m)));
    }
}


/// How many of the first players are still in the game: never more than
/// there are, one more with each player who is, and all of them ids of
/// players who are.
pub proof fn lemma_active_upto(players: Seq<PlayerView>, k: int)
    requires
        0 <= k <= players.len() <= usize::MAX,
    ensures
        active_upto(players, k).len() <= k,
        forall|i: int|
            0 <= i <= k ==> (#[trigger] active_upto(players, i)).len() <= active_upto(
                players,
                k,
            ).len(),
        forall|i: int|
            0 <= i < k && !players[i].eliminated ==> (#[trigger] active_upto(players, i)).len()
                < active_upto(players, k).len(),
        forall|j: int|
            0 <= j < active_upto(players, k).len() ==> (#[trigger] active_upto(players, k)[j]) < k
                && !players[active_upto(players, k)[j] as int].eliminated,
        forall|a: int, b: int|
            0 <= a < b < active_upto(players, k).len() ==> active_upto(players, k)[a]
                < active_upto(players, k)[b],
    decreases k,
{
    if k > 0 {
        lemma_active_upto(players, k - 1);
    }
}

/// Where nobody is out of the game, everybody is in it.
pub proof fn lemma_all_active(players: Seq<PlayerView>, k: int)
    requires
        0 <= k <= players.len(),
        forall|i: int| 0 <= i < players.len() ==> !(#[trigger] players[i]).eliminated,
    ensures
        active_upto(players, k).len() == k,
    decreases k,
{
    if k > 0 {
        lemma_all_active(players, k - 1);
    }
}

/// The players who are in the game are as many as are flagged so.
pub proof fn lemma_active_count(players: Seq<PlayerView>, k: int)
    requires
        0 <= k <= players.len(),
    ensures
        active_upto(players, k).len() == count(active_flags(players).take(k)),
    decreases k,
{
    if k > 0 {
        lemma_active_count(players, k - 1);
        assert(active_flags(players).take(k).drop_last() =~= active_flags(players).take(k - 1));
    }
}

/// Telling the players their cards changes nothing but the messages.
pub proof fn lemma_holes_told(g: GameView, k: int)
    requires
        g.wf(),
        0 <= k <= g.players.len(),
    ensures
        g.holes_told(k).wf(),
        (GameView { outbox: g.outbox, ..g.holes_told(k) }) == g,
    decreases k,
{
    if k > 0 {
        lemma_holes_told(g, k - 1);
        let p = g.players[k - 1];
        if !p.eliminated {
            lemma_told_one(
                g.holes_told(k - 1),
                (k - 1) as usize,
                EventView::HoleCardInfo {
                    hole_cards: (p.hole_cards[0], p.hole_cards[1]),
                    hand_number: g.hand_number,
                },
            );
        }
    }
}

/// A posted blind keeps the table well formed and the chips at the table.
pub proof fn lemma_blind_posted(g: GameView, blind: usize)
    requires
        g.wf(),
        g.phase == Phase::InHand,
    ensures
        g.blind_posted(blind).wf(),
        g.blind_posted(blind).phase == Phase::InHand,
        g.blind_posted(blind).players.len() == g.players.len(),
        g.blind_posted(blind).hand_number == g.hand_number,
        g.blind_posted(blind).max_players == g.max_players,
        g.blind_posted(blind).starting_stack == g.starting_stack,
        total_wealth(g.blind_posted(blind).players) == total_wealth(g.players),
{
    lemma_legal(g, Action::PostBlind(blind));
    let m = g.legal(Action::PostBlind(blind));
    lemma_turn_passed(g.moved(m).told(g.move_event(m)));
}

/// The cards of a player in a new hand make a hand with the board that can
/// be ranked.
pub proof fn lemma_dealt_in(g: GameView, cards: Seq<Card>)
    requires
        g.wf(),
        g.can_deal(cards),
    ensures
        g.dealt_in(cards).len() == g.players.len(),
        forall|i: int|
            0 <= i < g.players.len() ==> (#[trigger] g.dealt_in(cards)[i]).sound() && g.dealt_in(
                cards,
            )[i].wealth() == g.players[i].wealth() && g.dealt_in(cards)[i].eliminated
                == g.players[i].eliminated && g.dealt_in(cards)[i].street_contrib == 0
                && g.dealt_in(cards)[i].hand_contrib == 0,
        forall|i: int|
            0 <= i < g.players.len() && !(#[trigger] g.dealt_in(cards)[i]).eliminated
                ==> g.dealt_in(
                cards,
            )[i].hole_cards.len() == 2 && rankable(
                cards.subrange(0, 5) + g.dealt_in(cards)[i].hole_cards,
            ),
        total_wealth(g.dealt_in(cards)) == total_wealth(g.players),
{
    let n = g.players.len() as int;
    let players = g.dealt_in(cards);
    lemma_active_upto(g.players, n);
    assert forall|i: int| 0 <= i < n implies (#[trigger] players[i]).sound() && players[i].wealth()
        == g.players[i].wealth() && players[i].eliminated == g.players[i].eliminated
        && players[i].street_contrib == 0 && players[i].hand_contrib == 0 by {
        assert(g.players[i].sound());
    }
    lemma_same_wealth(players, g.players);
    assert forall|i: int| 0 <= i < n && !(#[trigger] players[i]).eliminated implies
        players[i].hole_cards.len()
        == 2 && rankable(cards.subrange(0, 5) + players[i].hole_cards) by {
        let at = 5 + 2 * (active_upto(g.players, i).len() as int);
        assert(active_upto(g.players, i).len() < active_upto(g.players, n).len());
        assert(at + 2 <= cards.len());
        let seven = cards.subrange(0, 5) + players[i].hole_cards;
        assert(seven.len() == 7);
        assert forall|a: int| 0 <= a < 7 implies seven[a] == cards[if a < 5 {
            a
        } else {
            at + a - 5
        }] by {}
        assert forall|a: int| 0 <= a < seven.len() implies (#[trigger] seven[a]).valid() by {
            assert(cards[if a < 5 {
                a
            } else {
                at + a - 5
            }].valid());
        }
        assert forall|a: int, b: int| 0 <= a < b < seven.len() implies seven[a] != seven[b] by {
            let x = if a < 5 {
                a
            } else {
                at + a - 5
            };
            let y = if b < 5 {
                b
            } else {
                at + b - 5
            };
            assert(cards[x] != cards[y]);
        }
    }
}

/// A new hand before the blinds: the table is well formed and holds the
/// chips that it held.
pub proof fn lemma_hand_seated(g: GameView, cards: Seq<Card>)
    requires
        g.wf(),
        g.can_deal(cards),
    ensures
        g.hand_seated(cards).wf(),
        g.hand_seated(cards).phase == Phase::InHand,
        g.hand_seated(cards).players.len() == g.players.len(),
        g.hand_seated(cards).hand_number == g.hand_number + 1,
        total_wealth(g.hand_seated(cards).players) == total_wealth(g.players),
        g.hand_seated(cards).max_players == g.max_players,
        g.hand_seated(cards).starting_stack == g.starting_stack,
        is_seating(button_moved(g.seat_order), g.players.len() as int),
        (GameView {
            hand_number: (g.hand_number + 1) as usize,
            min_raise: 2,
            current_bet: 0,
            board: cards.subrange(0, 5),
            players: g.dealt_in(cards),
            seat_order: button_moved(g.seat_order),
            street: Street::PreFlop,
            phase: Phase::InHand,
            to_act: g.hand_seated(cards).to_act,
            ..g
        }).wf(),
{
    let n = g.players.len() as int;
    let order = button_moved(g.seat_order);
    lemma_button_moved_is_seating(g.seat_order, n);
    lemma_dealt_in(g, cards);
    let players = g.dealt_in(cards);
    let able = able_flags(players);
    assert(order[0] < n);
    lemma_next_able_in_range(able, order, order[0]);
    let first = next_able(able, order, order[0]);
    lemma_next_able_in_range(able, order, first);
    let small = if count(active_flags(players)) == 2 {
        next_able(able, order, first)
    } else {
        first
    };
    lemma_next_able_in_range(able, order, small);
    let big = next_able(able, order, small);
    let fresh = GameView {
        hand_number: (g.hand_number + 1) as usize,
        min_raise: 2,
        current_bet: 0,
        board: cards.subrange(0, 5),
        players,
        seat_order: order,
        street: Street::PreFlop,
        phase: Phase::InHand,
        to_act: small,
        ..g
    };
    assert(fresh.in_order()) by {
        assert forall|k: int| 0 <= k < fresh.outbox.len() implies
            (#[trigger] fresh.outbox[k]).event.hand()
            <= fresh.hand_number by {
            assert(g.outbox[k].event.hand() <= g.hand_number);
        }
    }
    assert(fresh.wf());
    lemma_holes_told(fresh, n);
    let seated = fresh.holes_told(n);
    assert(seated.players == players);
    let optioned = g.hand_seated(cards);
    assert forall|j: int| 0 <= j < optioned.players.len() implies
        (#[trigger] optioned.players[j]).wealth()
        == players[j].wealth() && optioned.players[j].sound() && optioned.players[j].eliminated
        == players[j].eliminated && optioned.players[j].hole_cards == players[j].hole_cards by {
        assert(players[j].sound());
    }
    lemma_same_wealth(optioned.players, players);
    assert forall|j: int|
        0 <= j < optioned.players.len() && !(#[trigger] optioned.players[j]).eliminated implies
            optioned.players[j].hole_cards.len()
        == 2 && rankable(optioned.board + optioned.players[j].hole_cards) by {
        assert(!players[j].eliminated);
    }
}

/// The start of a hand keeps the table well formed and the chips at the
/// table.
pub proof fn lemma_hand_started(g: GameView, cards: Seq<Card>)
    requires
        g.wf(),
        g.can_deal(cards),
    ensures
        g.hand_started(cards).wf(),
        g.hand_started(cards).phase == Phase::InHand,
        g.hand_started(cards).players.len() == g.players.len(),
        g.hand_started(cards).hand_number == g.hand_number + 1,
        total_wealth(g.hand_started(cards).players) == total_wealth(g.players),
        g.hand_seated(cards).blind_posted(1).wf(),
        g.hand_seated(cards).blind_posted(1).phase == Phase::InHand,
        (GameView { current_bet: 2, ..g.hand_seated(cards).blind_posted(1).blind_posted(2) }).wf(),
{
    lemma_hand_seated(g, cards);
    let optioned = g.hand_seated(cards);
    lemma_blind_posted(optioned, 1);
    lemma_blind_posted(optioned.blind_posted(1), 2);
    let blinds = optioned.blind_posted(1).blind_posted(2);
    let level = GameView { current_bet: 2, ..blinds };
    assert(level.wf());
    let e1 = EventView::StreetInfo {
        street: Street::PreFlop,
        button_player: blinds.seat_order[0],
        board_cards_revealed: Seq::empty(),
        hand_number: blinds.hand_number,
    };
    lemma_told(level, e1);
    lemma_told(
        level.told(e1),
        EventView::ToMoveInfo { player_id: blinds.to_act, hand_number: blinds.hand_number },
    );
}

/// Every deal keeps the table well formed and the chips at the table.
pub proof fn law_deal_keeps_table(g: GameView, cards: Seq<Card>)
    requires
        g.wf(),
    ensures
        g.hand_dealt(cards).wf(),
        g.hand_dealt(cards).players.len() == g.players.len(),
        total_wealth(g.hand_dealt(cards).players) == total_wealth(g.players),
        !g.can_deal(cards) ==> g.hand_dealt(cards) == g,
        g.can_deal(cards) ==> g.hand_dealt(cards).phase != Phase::Lobby && g.hand_dealt(
            cards,
        ).hand_number == g.hand_number + 1,
{
    if g.can_deal(cards) {
        lemma_hand_started(g, cards);
        let h = g.hand_started(cards);
        if h.hand_over() {
            lemma_settled(h);
            lemma_settled_same_hand(h);
        }
    }
}

/// The end of a hand leaves the hand counter alone.
pub proof fn lemma_settled_same_hand(g: GameView)
    requires
        g.wf(),
        g.phase == Phase::InHand,
    ensures
        g.settled().hand_number == g.hand_number,
{
    let h = GameView { players: g.paid_out(), ..g }.told(g.payout_event());
    lemma_hand_payouts(g);
    lemma_settled(g);
    assert(h.hand_number == g.hand_number);
    // The players who go out change nothing else.
    let n = g.players.len() as int;
    assert(h.busted(n).hand_number == h.hand_number) by {
        lemma_busted_same_hand(h, n);
    }
}

pub proof fn lemma_busted_same_hand(g: GameView, k: int)
    requires
        0 <= k <= g.players.len(),
    ensures
        g.busted(k).hand_number == g.hand_number,
        g.busted(k).seat_order == g.seat_order,
        g.busted(k).board == g.board,
        g.busted(k).street == g.street,
        g.busted(k).to_act == g.to_act,
        g.busted(k).phase == g.phase,
        g.busted(k).max_players == g.max_players,
        g.busted(k).starting_stack == g.starting_stack,
        g.busted(k).current_bet == g.current_bet,
        g.busted(k).min_raise == g.min_raise,
        g.busted(k).players.len() == g.players.len(),
    decreases k,
{
    if k > 0 {
        lemma_busted_same_hand(g, k - 1);
    }
}

/// Telling the players their seats changes nothing but the messages.
pub proof fn lemma_privates_told(g: GameView, k: int)
    requires
        g.wf(),
        g.hand_number == 0,
        0 <= k <= g.players.len(),
    ensures
        g.privates_told(k).wf(),
        (GameView { outbox: g.outbox, ..g.privates_told(k) }) == g,
    decreases k,
{
    if k > 0 {
        lemma_privates_told(g, k - 1);
        lemma_told_one(
            g.privates_told(k - 1),
            (k - 1) as usize,
            EventView::PlayerPrivateInfo {
                ingame_id: (k - 1) as usize,
                secret_id: g.players[k - 1].secret_id,
            },
        );
    }
}

/// The start of the game keeps the table well formed and the chips at the
/// table.
pub proof fn law_start_keeps_table(g: GameView)
    requires
        g.wf(),
    ensures
        g.opened().wf(),
        g.opened().players == g.players,
        !g.can_open() ==> g.opened() == g,
        g.can_open() ==> g.opened().phase == Phase::HandComplete,
{
    if g.can_open() {
        let h = GameView { phase: Phase::HandComplete, ..g };
        assert forall|i: int| 0 <= i < g.players.len() implies
            !(#[trigger] g.players[i]).eliminated by {
            assert(g.players[i].able());
        }
        lemma_all_active(g.players, g.players.len() as int);
        assert(h.wf());
        lemma_privates_told(h, g.players.len() as int);
        lemma_told(
            h.privates_told(g.players.len() as int),
            EventView::GameTableInfo {
                starting_stack: g.starting_stack,
                seat_order: g.seat_order,
                button_player: g.seat_order[0],
                display_names: g.names_by_seat(),
            },
        );
    }
}

/// A player who joins brings the starting stack to the table, and the table
/// stays well formed.
pub proof fn law_join_keeps_table(
    g: GameView,
    name: Seq<char>,
    address: Seq<char>,
    secret: u128,
    order: Seq<usize>,
)
    requires
        g.wf(),
    ensures
        g.seated(name, address, secret, order).wf(),
        !g.can_seat(order) ==> g.seated(name, address, secret, order) == g,
        g.can_seat(order) ==> total_wealth(g.seated(name, address, secret, order).players)
            == total_wealth(g.players) + g.starting_stack,
{
    if g.can_seat(order) {
        let h = g.seated(name, address, secret, order);
        let p = h.players[g.players.len() as int];
        assert(wealths(h.players) =~= wealths(g.players).push(p.wealth()));
        lemma_sum_push(wealths(g.players), p.wealth());
        assert forall|i: int| 0 <= i < h.players.len() implies
            (#[trigger] h.players[i]).sound() by {
            if i < g.players.len() {
                assert(g.players[i].sound());
            }
        }
        assert forall|i: int| 0 <= i < h.players.len() implies
            (#[trigger] h.players[i]).street_contrib
            == 0 && h.players[i].hand_contrib == 0 by {
            if i < g.players.len() {
                assert(g.players[i].street_contrib == 0);
            }
        }
        assert forall|i: int| 0 <= i < h.players.len() implies (#[trigger] h.players[i]).able()
            && !h.players[i].has_option by {
            if i < g.players.len() {
                assert(g.players[i].able());
            }
        }
    }
}


/// Telling a player or all leaves the settings, the seats and the hand
/// counter alone.
pub open spec fn same_settings(g: GameView, h: GameView) -> bool {
    &&& h.max_players == g.max_players
    &&& h.starting_stack == g.starting_stack
    &&& h.players.len() == g.players.len()
}

pub proof fn lemma_settled_settings(g: GameView)
    requires
        g.wf(),
        g.phase == Phase::InHand,
    ensures
        same_settings(g, g.settled()),
        g.settled().hand_number == g.hand_number,
{
    lemma_settled(g);
    lemma_settled_same_hand(g);
    let h = GameView { players: g.paid_out(), ..g }.told(g.payout_event());
    lemma_busted_same_hand(h, g.players.len() as int);
}

/// A request leaves the settings and the hand counter alone.
pub proof fn lemma_acted_settings(g: GameView, action: Action)
    requires
        g.wf(),
    ensures
        same_settings(g, g.acted(action)),
        g.acted(action).hand_number == g.hand_number,
        g.phase != Phase::Lobby ==> g.acted(action).phase != Phase::Lobby,
{
    if g.phase == Phase::InHand {
        lemma_legal(g, action);
        let m = g.legal(action);
        let h = g.moved(m).told(g.move_event(m));
        if h.hand_over() {
            lemma_settled(h);
            lemma_settled_settings(h);
        } else if h.street_over() {
            lemma_street_dealt(h);
        } else {
            lemma_turn_passed(h);
        }
    }
}

/// A deal leaves the settings alone.
pub proof fn lemma_hand_dealt_settings(g: GameView, cards: Seq<Card>)
    requires
        g.wf(),
    ensures
        same_settings(g, g.hand_dealt(cards)),
{
    if g.can_deal(cards) {
        lemma_hand_seated(g, cards);
        lemma_hand_started(g, cards);
        let optioned = g.hand_seated(cards);
        lemma_blind_posted(optioned, 1);
        lemma_blind_posted(optioned.blind_posted(1), 2);
        let h = g.hand_started(cards);
        if h.hand_over() {
            lemma_settled_settings(h);
        }
    }
}


/// Every move is legal: after a request other than a blind, the player has
/// at most the bet on the table, as every other player has who had before;
/// and where the bet has gone up, it has gone up by the minimum raise at
/// least, unless the player is all in.
pub proof fn law_action_is_legal(g: GameView, action: Action)
    requires
        g.wf(),
        g.phase == Phase::InHand,
        !(action is PostBlind),
        g.bets_in_line(),
    ensures
        g.moved(g.legal(action)).bets_in_line(),
        g.moved(g.legal(action)).current_bet > g.current_bet ==> g.moved(
            g.legal(action),
        ).current_bet - g.current_bet >= g.min_raise || g.moved(
            g.legal(action),
        ).players[g.to_act as int].all_in,
        g.moved(g.legal(action)).current_bet >= g.current_bet,
        g.acted(action).bets_in_line(),
{
    let p = g.players[g.to_act as int];
    assert(p.street_contrib <= g.current_bet);
    crate::action::law_bet_is_legal(
        action,
        p.street_contrib,
        p.chips,
        p.has_option,
        g.current_bet,
        g.min_raise,
    );
    lemma_legal(g, action);
    let m = g.legal(action);
    let h = g.moved(m);
    lemma_wealth_within_total(g.players, g.to_act as int);
    assert forall|i: int| 0 <= i < h.players.len() implies (#[trigger] h.players[i]).street_contrib
        <= h.current_bet by {
        if i != g.to_act {
            assert(g.players[i].street_contrib <= g.current_bet);
        }
    }
    let t = h.told(g.move_event(m));
    assert(t.bets_in_line());
    if t.hand_over() {
        lemma_settled(t);
        lemma_hand_payouts(t);
        let n = t.players.len() as int;
        let paid = GameView { players: t.paid_out(), ..t }.told(t.payout_event());
        lemma_told(GameView { players: t.paid_out(), ..t }, t.payout_event());
        lemma_busted(paid, n);
        lemma_busted_same_hand(paid, n);
        let b = paid.busted(n);
        let after = t.settled();
        assert(after.players == b.players);
        assert(after.current_bet == t.current_bet);
        assert forall|i: int| 0 <= i < after.players.len() implies
            (#[trigger] after.players[i]).street_contrib
            <= after.current_bet by {
            assert(b.players[i].street_contrib == 0);
        }
    } else if t.street_over() {
        lemma_street_dealt(t);
        lemma_round_closed(t);
        lemma_round_opened(
            GameView {
                players: t.round_closed(),
                current_bet: 0,
                min_raise: 2,
                street: t.street.following(),
                ..t
            },
        );
        let after = t.street_dealt();
        assert(after.current_bet == 0);
        assert forall|i: int| 0 <= i < after.players.len() implies
            (#[trigger] after.players[i]).street_contrib
            <= after.current_bet by {
            assert(t.players[i].sound());
            assert(t.round_closed()[i].street_contrib == 0);
        }
    } else {
        lemma_turn_passed(t);
    }
}


/// The chips are conserved: while the starting stack is not changed, the
/// chips at the table are the starting stacks of its players, whatever
/// happens. A player who joins brings one stack more; a request, a deal,
/// and the start of the game neither add a chip nor lose one.
pub proof fn law_chips_conserved(
    g: GameView,
    action: Action,
    cards: Seq<Card>,
    name: Seq<char>,
    address: Seq<char>,
    secret: u128,
    order: Seq<usize>,
)
    requires
        g.wf(),
        g.balanced(),
    ensures
        g.acted(action).balanced(),
        g.hand_dealt(cards).balanced(),
        g.opened().balanced(),
        g.seated(name, address, secret, order).balanced(),
{
    law_action_keeps_table(g, action);
    lemma_acted_settings(g, action);
    law_deal_keeps_table(g, cards);
    lemma_hand_dealt_settings(g, cards);
    law_start_keeps_table(g);
    if g.can_open() {
        lemma_privates_told(
            GameView { phase: Phase::HandComplete, ..g },
            g.players.len() as int,
        );
    }
    law_join_keeps_table(g, name, address, secret, order);
    if g.can_seat(order) {
        assert((g.players.len() + 1) * g.starting_stack == g.players.len() * g.starting_stack
            + g.starting_stack) by (nonlinear_arith);
    }
}

/// A betting round that is over is closed: every player who can act has
/// matched the bet and holds no option.
pub proof fn law_street_closure(g: GameView, i: int)
    requires
        g.street_over(),
        0 <= i < g.players.len(),
        !g.players[i].folded,
        !g.players[i].all_in,
        !g.players[i].eliminated,
    ensures
        g.players[i].street_contrib == g.current_bet,
        !g.players[i].has_option,
{
    assert(g.players[i].able());
}

/// The messages stay in the order of the hands: whatever a command adds to
/// the outbox, no message in it is of an earlier hand than the message
/// before it, and none is of a later hand than the table is at.
pub proof fn law_messages_in_hand_order(g: GameView, action: Action, cards: Seq<Card>)
    requires
        g.wf(),
    ensures
        g.acted(action).in_order(),
        g.hand_dealt(cards).in_order(),
        g.opened().in_order(),
        g.acted(action).hand_number == g.hand_number,
        g.hand_dealt(cards).hand_number >= g.hand_number,
{
    law_action_keeps_table(g, action);
    lemma_acted_settings(g, action);
    law_deal_keeps_table(g, cards);
    law_start_keeps_table(g);
}


/// No stack falls below zero: a request takes from the stack of the player
/// to act what the legal move takes, which is never more than the stack,
/// and from no other stack; and a payout only adds to the stacks.
pub proof fn law_no_negative_chips(g: GameView, action: Action, i: int)
    requires
        g.wf(),
        g.phase == Phase::InHand,
        0 <= i < g.players.len(),
    ensures
        g.players[g.to_act as int].chips - g.legal(action).amount() >= 0,
        g.moved(g.legal(action)).players[i].chips == g.players[i].chips - (if i == g.to_act {
            g.legal(action).amount()
        } else {
            0
        }),
        g.hand_payouts()[i] >= 0,
        g.paid_out()[i].chips == g.players[i].chips + g.hand_payouts()[i],
{
    lemma_legal(g, action);
    lemma_hand_payouts(g);
}


/// The turn is always with a player who can act: after a request, and
/// after a deal, a hand that goes on waits for a player who is in the hand
/// and has chips behind.
pub proof fn law_turn_is_with_a_player_who_can_act(g: GameView, action: Action, cards: Seq<Card>)
    requires
        g.wf(),
    ensures
        g.acted(action).ready(),
        g.can_deal(cards) ==> g.hand_dealt(cards).ready(),
{
    if g.phase == Phase::InHand {
        lemma_legal(g, action);
        let m = g.legal(action);
        let t = g.moved(m).told(g.move_event(m));
        lemma_ready_after(t);
    }
    if g.can_deal(cards) {
        lemma_hand_seated(g, cards);
        lemma_hand_started(g, cards);
        let first = g.hand_seated(cards).blind_posted(1);
        lemma_legal(first, Action::PostBlind(2));
        let m = first.legal(Action::PostBlind(2));
        let posted = first.moved(m).told(first.move_event(m));
        let h = g.hand_started(cards);
        assert(h.players == posted.players);
        if h.hand_over() {
            lemma_settled(h);
        } else {
            let w = choose|i: int|
                0 <= i < able_flags(h.players).len() && able_flags(h.players)[i];
            lemma_next_able_can_act(
                able_flags(posted.players),
                posted.seat_order,
                posted.to_act,
                w,
            );
            assert(h.players[h.to_act as int].solvent());
        }
    }
}

/// After a move, a hand that goes on waits for a player who can act.
pub proof fn lemma_ready_after(t: GameView)
    requires
        t.wf(),
        t.phase == Phase::InHand,
    ensures
        t.carried_on().ready(),
{
    lemma_carried_on(t);
    let after = t.carried_on();
    if t.hand_over() {
        lemma_settled(t);
    } else {
        let able = able_flags(t.players);
        let w = choose|i: int| 0 <= i < able.len() && able[i];
        if t.street_over() {
            lemma_round_closed(t);
            let closed = GameView {
                players: t.round_closed(),
                current_bet: 0,
                min_raise: 2,
                street: t.street.following(),
                ..t
            };
            lemma_round_opened(closed);
            assert(able_flags(closed.players) =~= able);
            lemma_next_able_can_act(able, t.seat_order, t.seat_order[0], w);
            assert(after.players[after.to_act as int].solvent());
        } else {
            lemma_turn_passed(t);
            lemma_next_able_can_act(able, t.seat_order, t.to_act, w);
            assert(after.players[after.to_act as int].solvent());
        }
    }
}


/// At a table a request is interpreted once and for all: the legal move
/// that stands for a request of the player to act stands for itself.
pub proof fn law_legal_move_stands_for_itself(g: GameView, action: Action)
    requires
        g.wf(),
        g.phase == Phase::InHand,
        g.ready(),
        g.bets_in_line(),
    ensures
        g.legal(g.legal(action)) == g.legal(action),
{
    let p = g.players[g.to_act as int];
    crate::action::law_interpret_idempotent(
        action,
        p.street_contrib,
        p.chips,
        p.has_option,
        g.current_bet,
        g.min_raise,
    );
}


/// A blind takes up to its size from the player to act and leaves the
/// other players, the bet and the seats alone.
pub proof fn lemma_blind_posted_stakes(g: GameView, blind: usize)
    requires
        g.wf(),
        g.phase == Phase::InHand,
    ensures
        g.blind_posted(blind).players.len() == g.players.len(),
        g.blind_posted(blind).current_bet == g.current_bet,
        g.blind_posted(blind).seat_order == g.seat_order,
        g.blind_posted(blind).players[g.to_act as int].street_contrib
            <= g.players[g.to_act as int].street_contrib + blind,
        forall|i: int|
            0 <= i < g.players.len() && i != g.to_act ==> (#[trigger] g.blind_posted(
                blind,
            ).players[i]) == g.players[i],
{
    lemma_legal(g, Action::PostBlind(blind));
    let m = g.legal(Action::PostBlind(blind));
    let y = g.moved(m).told(g.move_event(m));
    lemma_turn_passed(y);
}

/// After a blind the turn is with another player, where another player can
/// act.
pub proof fn lemma_blind_passes_turn(g: GameView, blind: usize, other: int)
    requires
        g.wf(),
        g.phase == Phase::InHand,
        0 <= other < g.players.len(),
        other != g.to_act,
        g.players[other].able(),
    ensures
        g.blind_posted(blind).to_act != g.to_act,
{
    lemma_legal(g, Action::PostBlind(blind));
    let m = g.legal(Action::PostBlind(blind));
    let y = g.moved(m).told(g.move_event(m));
    assert(able_flags(y.players)[other]);
    lemma_next_able_is_another(able_flags(y.players), g.seat_order, g.to_act, other);
}

/// A new hand before the blinds: nothing is on the table, the player to
/// act can act, and so can another player.
pub proof fn lemma_hand_seated_stakes(g: GameView, cards: Seq<Card>) -> (other: int)
    requires
        g.wf(),
        g.can_deal(cards),
    ensures
        g.hand_seated(cards).current_bet == 0,
        forall|i: int|
            0 <= i < g.players.len() ==> (#[trigger] g.hand_seated(cards).players[i]).street_contrib
                == 0,
        0 <= other < g.players.len(),
        other != g.hand_seated(cards).to_act,
        g.hand_seated(cards).players[other].able(),
{
    let n = g.players.len() as int;
    lemma_hand_seated(g, cards);
    lemma_dealt_in(g, cards);
    lemma_active_upto(g.players, n);
    let order = button_moved(g.seat_order);
    let dealt = g.dealt_in(cards);
    let seated = g.hand_seated(cards);
    let able = able_flags(dealt);
    let first = next_able(able, order, order[0]);
    let small = if count(active_flags(dealt)) == 2 {
        next_able(able, order, first)
    } else {
        first
    };
    let plain = GameView {
        hand_number: (g.hand_number + 1) as usize,
        min_raise: 2,
        current_bet: 0,
        board: cards.subrange(0, 5),
        players: dealt,
        seat_order: order,
        street: Street::PreFlop,
        phase: Phase::InHand,
        to_act: small,
        ..g
    };
    assert(order[0] < n);
    lemma_next_able_in_range(able, order, order[0]);
    lemma_next_able_in_range(able, order, first);
    lemma_next_able_in_range(able, order, small);
    lemma_holes_told(plain, n);
    assert(seated.to_act == small);
    let ids = active_ids(g.players);
    let w0 = ids[0] as int;
    let w1 = ids[1] as int;
    assert(w0 != w1);
    assert(able[w0] && able[w1]);
    if w0 != small {
        w0
    } else {
        w1
    }
}

/// After a deal every player has at most the bet on the table: the blinds
/// are 1 and 2 at most, posted by two players, and the bet is 2.
pub proof fn law_deal_puts_bets_in_line(g: GameView, cards: Seq<Card>)
    requires
        g.wf(),
        g.can_deal(cards),
    ensures
        g.hand_dealt(cards).bets_in_line(),
{
    let n = g.players.len() as int;
    lemma_hand_seated(g, cards);
    lemma_hand_started(g, cards);
    let seated = g.hand_seated(cards);
    let other = lemma_hand_seated_stakes(g, cards);
    let b1 = seated.blind_posted(1);
    lemma_blind_posted_stakes(seated, 1);
    lemma_blind_passes_turn(seated, 1, other);
    let b2 = b1.blind_posted(2);
    lemma_blind_posted_stakes(b1, 2);
    let h = g.hand_started(cards);
    assert(h.players == b2.players);
    assert(h.current_bet == 2);
    assert forall|i: int| 0 <= i < h.players.len() implies (#[trigger] h.players[i]).street_contrib
        <= h.current_bet by {
        assert(seated.players[i].street_contrib == 0);
        if i != b1.to_act {
            assert(b2.players[i] == b1.players[i]);
            if i != seated.to_act {
                assert(b1.players[i] == seated.players[i]);
            }
        }
    }
    if h.hand_over() {
        lemma_settled_clears_table(h);
    }
}

/// The end of a hand leaves nothing on the table.
pub proof fn lemma_settled_clears_table(g: GameView)
    requires
        g.wf(),
        g.phase == Phase::InHand,
    ensures
        g.settled().bets_in_line(),
        forall|i: int|
            0 <= i < g.players.len() ==> (#[trigger] g.settled().players[i]).street_contrib == 0
                && g.settled().players[i].hand_contrib == 0,
{
    let n = g.players.len() as int;
    lemma_settled(g);
    lemma_hand_payouts(g);
    let paid = GameView { players: g.paid_out(), ..g }.told(g.payout_event());
    lemma_told(GameView { players: g.paid_out(), ..g }, g.payout_event());
    lemma_busted(paid, n);
    lemma_busted_same_hand(paid, n);
    let b = paid.busted(n);
    let after = g.settled();
    assert(after.players == b.players);
    assert forall|i: int| 0 <= i < n implies (#[trigger] after.players[i]).street_contrib == 0
        && after.players[i].hand_contrib == 0 by {
        assert(b.players[i].street_contrib == 0);
    }
}

} // verus!
