//! Main pot and side pots: who wins what of the chips that a hand has
//! gathered.
//!
//! The chips are taken off in layers. A layer takes from every player, up to
//! the smallest stake that a player still in the hand has left, and is won by
//! the best hand among the players who still had a stake in it. The last
//! layer takes all that is left.

use crate::action::lesser;
use crate::seating::{is_seating, left_of};
use crate::sums::{
    as_ints,
    lemma_part_within_sum,
    lemma_sum_prefix,
    lemma_sum_minus,
    lemma_sum_monotone,
    lemma_sum_none_negative,
    lemma_sum_plus,
    lemma_sum_update,
    lemma_sum_zeros,
    minus,
    none_negative,
    plus,
    sum,
    zeros,
};
use vstd::prelude::*;

verus! {

/// The strengths of the hands as mathematical numbers.
pub open spec fn strengths(s: Seq<u64>) -> Seq<int> {
    Seq::new(s.len(), |i: int| s[i] as int)
}

/// For each player, whether the player can win of the chips that are left:
/// still in the hand, with a stake left.
pub open spec fn entitled(stakes: Seq<int>, live: Seq<bool>) -> Seq<bool> {
    Seq::new(stakes.len(), |i: int| live[i] && stakes[i] > 0)
}

/// Whether any flag is set.
pub open spec fn any(flags: Seq<bool>) -> bool {
    exists|i: int| 0 <= i < flags.len() && flags[i]
}

/// How many flags are set.
pub open spec fn count(flags: Seq<bool>) -> nat
    decreases flags.len(),
{
    if flags.len() == 0 {
        0
    } else {
        count(flags.drop_last()) + if flags.last() {
            1nat
        } else {
            0nat
        }
    }
}

/// The smallest stake left among the first `k` players who are entitled, or
/// 0 where none of them is.
pub open spec fn least_stake(stakes: Seq<int>, live: Seq<bool>, k: int) -> int
    decreases k,
{
    if k <= 0 {
        0
    } else {
        let before = least_stake(stakes, live, k - 1);
        if live[k - 1] && stakes[k - 1] > 0 && (before == 0 || stakes[k - 1] < before) {
            stakes[k - 1]
        } else {
            before
        }
    }
}

/// The level of the next layer: the smallest stake left of an entitled
/// player.
pub open spec fn level(stakes: Seq<int>, live: Seq<bool>) -> int {
    least_stake(stakes, live, stakes.len() as int)
}

/// What a layer up to `lvl` takes from each player.
pub open spec fn capped(stakes: Seq<int>, lvl: int) -> Seq<int> {
    Seq::new(stakes.len(), |i: int| lesser(lvl, stakes[i]))
}

/// What the next layer takes from each player: the stake up to the level,
/// or all of it where that leaves no entitled player a stake.
pub open spec fn layer(stakes: Seq<int>, live: Seq<bool>) -> Seq<int> {
    let part = capped(stakes, level(stakes, live));
    if any(entitled(minus(stakes, part), live)) {
        part
    } else {
        stakes
    }
}

/// The winners of a layer: the entitled players whose hand no entitled
/// player's hand beats.
pub open spec fn winners(strength: Seq<int>, entitled: Seq<bool>) -> Seq<bool> {
    Seq::new(
        entitled.len(),
        |i: int|
            entitled[i] && forall|j: int|
                0 <= j < entitled.len() && entitled[j] ==> strength[j] <= strength[i],
    )
}

/// The player met at a step of the walk round the table that starts with
/// the seat left of the button and ends with the button.
pub open spec fn walk_seat(order: Seq<usize>, step: int) -> int {
    order[left_of(step, order.len() as int)] as int
}

/// How many winners the walk meets in its first `steps` steps.
pub open spec fn winners_met(order: Seq<usize>, wins: Seq<bool>, steps: int) -> int
    decreases steps,
{
    if steps <= 0 {
        0
    } else {
        winners_met(order, wins, steps - 1) + if wins[walk_seat(order, steps - 1)] {
            1int
        } else {
            0int
        }
    }
}

/// What the first `steps` steps of the walk hand out: each winner met gets
/// `share`, and the first `odd` of them one chip more.
pub open spec fn handed_out(
    order: Seq<usize>,
    wins: Seq<bool>,
    share: int,
    odd: int,
    steps: int,
) -> Seq<int>
    decreases steps,
{
    if steps <= 0 {
        zeros(wins.len())
    } else {
        let before = handed_out(order, wins, share, odd, steps - 1);
        let id = walk_seat(order, steps - 1);
        if wins[id] {
            before.update(
                id,
                share + if winners_met(order, wins, steps - 1) < odd {
                    1int
                } else {
                    0int
                },
            )
        } else {
            before
        }
    }
}

/// How a pot is split among its winners: in equal shares, and the chips
/// that do not divide go one each to the first winners left of the button.
pub open spec fn split(order: Seq<usize>, wins: Seq<bool>, pot: int) -> Seq<int> {
    let n = order.len() as int;
    let heads = winners_met(order, wins, n);
    if heads <= 0 {
        zeros(wins.len())
    } else {
        handed_out(order, wins, pot / heads, pot % heads, n)
    }
}

/// What each player is paid of the stakes.
///
/// `live` tells who is still in the hand, `strength` how strong each hand is,
/// `order` where the players sit. Stakes that no player still in the hand
/// can win go back to those who put them in.
pub open spec fn payouts(
    stakes: Seq<int>,
    live: Seq<bool>,
    strength: Seq<int>,
    order: Seq<usize>,
) -> Seq<int>
    decreases count(entitled(stakes, live)),
    via payouts_ends
{
    if !any(entitled(stakes, live)) {
        stakes
    } else {
        let take = layer(stakes, live);
        plus(
            split(order, winners(strength, entitled(stakes, live)), sum(take)),
            payouts(minus(stakes, take), live, strength, order),
        )
    }
}

#[via_fn]
proof fn payouts_ends(stakes: Seq<int>, live: Seq<bool>, strength: Seq<int>, order: Seq<usize>) {
    if any(entitled(stakes, live)) {
        lemma_layer_shrinks(stakes, live);
    }
}

pub proof fn lemma_count_fewer(a: Seq<bool>, b: Seq<bool>, m: int)
    requires
        a.len() == b.len(),
        forall|i: int| 0 <= i < a.len() && a[i] ==> b[i],
        0 <= m < a.len(),
        b[m],
        !a[m],
    ensures
        count(a) < count(b),
    decreases a.len(),
{
    if m == a.len() - 1 {
        lemma_count_at_most(a.drop_last(), b.drop_last());
    } else {
        lemma_count_fewer(a.drop_last(), b.drop_last(), m);
    }
}

pub proof fn lemma_count_at_most(a: Seq<bool>, b: Seq<bool>)
    requires
        a.len() == b.len(),
        forall|i: int| 0 <= i < a.len() && a[i] ==> b[i],
    ensures
        count(a) <= count(b),
    decreases a.len(),
{
    if a.len() > 0 {
        lemma_count_at_most(a.drop_last(), b.drop_last());
    }
}

pub proof fn lemma_count_none(a: Seq<bool>)
    requires
        !any(a),
    ensures
        count(a) == 0,
    decreases a.len(),
{
    if a.len() > 0 {
        assert(!a[a.len() - 1]);
        assert(!any(a.drop_last())) by {
            if any(a.drop_last()) {
                let i = choose|i: int| 0 <= i < a.drop_last().len() && a.drop_last()[i];
                assert(a[i]);
            }
        }
        lemma_count_none(a.drop_last());
    }
}

/// What the smallest stake is: nothing where nobody is entitled, else the
/// stake of an entitled player that no entitled player's stake goes below.
pub proof fn lemma_least_stake(stakes: Seq<int>, live: Seq<bool>, k: int)
    requires
        0 <= k <= stakes.len(),
        stakes.len() == live.len(),
    ensures
        least_stake(stakes, live, k) >= 0,
        least_stake(stakes, live, k) == 0 <==> forall|i: int|
            0 <= i < k ==> !(live[i] && stakes[i] > 0),
        least_stake(stakes, live, k) > 0 ==> exists|i: int|
            0 <= i < k && live[i] && stakes[i] == least_stake(stakes, live, k),
        forall|i: int|
            0 <= i < k && live[i] && stakes[i] > 0 ==> least_stake(stakes, live, k) <= stakes[i],
    decreases k,
{
    if k > 0 {
        lemma_least_stake(stakes, live, k - 1);
        let before = least_stake(stakes, live, k - 1);
        let now = least_stake(stakes, live, k);
        if now > 0 {
            if live[k - 1] && stakes[k - 1] > 0 && (before == 0 || stakes[k - 1] < before) {
                assert(live[k - 1] && stakes[k - 1] == now);
            } else {
                let i = choose|i: int| 0 <= i < k - 1 && live[i] && stakes[i] == before;
                assert(0 <= i < k && live[i] && stakes[i] == now);
            }
        }
    }
}

/// The level of a layer, where somebody is entitled: the stake of an
/// entitled player, and no entitled player has less.
pub proof fn lemma_level(stakes: Seq<int>, live: Seq<bool>)
    requires
        stakes.len() == live.len(),
    ensures
        any(entitled(stakes, live)) <==> level(stakes, live) > 0,
        level(stakes, live) >= 0,
        level(stakes, live) > 0 ==> exists|i: int|
            0 <= i < stakes.len() && live[i] && stakes[i] == level(stakes, live),
        forall|i: int|
            0 <= i < stakes.len() && live[i] && stakes[i] > 0 ==> level(stakes, live)
                <= stakes[i],
{
    lemma_least_stake(stakes, live, stakes.len() as int);
    let e = entitled(stakes, live);
    if any(e) {
        let i = choose|i: int| 0 <= i < e.len() && e[i];
        assert(live[i] && stakes[i] > 0);
    }
    if level(stakes, live) > 0 {
        let i = choose|i: int|
            0 <= i < stakes.len() && live[i] && stakes[i] == level(stakes, live);
        assert(e[i]);
    }
}

/// Every layer leaves fewer players entitled than it found.
pub proof fn lemma_layer_shrinks(stakes: Seq<int>, live: Seq<bool>)
    requires
        any(entitled(stakes, live)),
    ensures
        count(entitled(minus(stakes, layer(stakes, live)), live)) < count(
            entitled(stakes, live),
        ),
        forall|i: int|
            0 <= i < stakes.len() && entitled(minus(stakes, layer(stakes, live)), live)[i]
                ==> entitled(stakes, live)[i],
{
    let before = entitled(stakes, live);
    let rest = minus(stakes, layer(stakes, live));
    let after = entitled(rest, live);
    let lvl = level(stakes, live);
    let w = choose|i: int| 0 <= i < before.len() && before[i];
    let part = capped(stakes, lvl);
    if any(entitled(minus(stakes, part), live)) {
        // The level is the stake of an entitled player, who is left with
        // nothing.
        let short = Seq::new(stakes.len(), |i: int| live[i]);
        lemma_least_stake(stakes, short, stakes.len() as int);
        assert(least_stake(stakes, short, stakes.len() as int) == lvl) by {
            lemma_least_stake_same(stakes, live, short, stakes.len() as int);
        }
        assert(short[w] && stakes[w] > 0);
        let m = choose|i: int| 0 <= i < stakes.len() && short[i] && stakes[i] == lvl;
        assert(before[m] && !after[m]);
        assert forall|i: int| 0 <= i < after.len() && after[i] implies before[i] by {}
        lemma_count_fewer(after, before, m);
    } else {
        assert(rest =~= zeros(stakes.len()));
        assert(!any(after));
        lemma_count_none(after);
        assert forall|i: int| 0 <= i < after.len() && after[i] implies before[i] by {}
        lemma_count_fewer(after, before, w);
    }
}

pub proof fn lemma_least_stake_same(stakes: Seq<int>, live: Seq<bool>, other: Seq<bool>, k: int)
    requires
        0 <= k <= stakes.len(),
        forall|i: int| 0 <= i < k ==> live[i] == other[i],
    ensures
        least_stake(stakes, live, k) == least_stake(stakes, other, k),
    decreases k,
{
    if k > 0 {
        lemma_least_stake_same(stakes, live, other, k - 1);
    }
}

/// The walk meets nobody twice.
pub proof fn lemma_walk_meets_once(order: Seq<usize>, a: int, b: int)
    requires
        is_seating(order, order.len() as int),
        0 <= a < order.len(),
        0 <= b < order.len(),
        a != b,
    ensures
        walk_seat(order, a) != walk_seat(order, b),
{
    let n = order.len() as int;
    let pa = left_of(a, n);
    let pb = left_of(b, n);
    if pa < pb {
        assert(order[pa] != order[pb]);
    } else {
        assert(order[pb] != order[pa]);
    }
}

/// The walk meets everybody.
pub proof fn lemma_walk_meets_all(order: Seq<usize>, id: usize) -> (step: int)
    requires
        is_seating(order, order.len() as int),
        id < order.len(),
    ensures
        0 <= step < order.len(),
        walk_seat(order, step) == id,
{
    assert(order.contains(id));
    let k = order.index_of(id);
    crate::seating::right_of(k, order.len() as int)
}

pub proof fn lemma_winners_met(order: Seq<usize>, wins: Seq<bool>, steps: int)
    requires
        0 <= steps,
    ensures
        0 <= winners_met(order, wins, steps) <= steps,
        forall|s: int|
            0 <= s < steps && wins[walk_seat(order, s)] ==> winners_met(order, wins, steps) >= 1,
        forall|s: int|
            0 <= s <= steps ==> winners_met(order, wins, s) <= winners_met(order, wins, steps),
    decreases steps,
{
    if steps > 0 {
        lemma_winners_met(order, wins, steps - 1);
    }
}

pub proof fn lemma_handed_out(
    order: Seq<usize>,
    wins: Seq<bool>,
    share: int,
    odd: int,
    steps: int,
)
    requires
        is_seating(order, order.len() as int),
        wins.len() == order.len(),
        0 <= steps <= order.len(),
        share >= 0,
        odd >= 0,
    ensures
        handed_out(order, wins, share, odd, steps).len() == wins.len(),
        sum(handed_out(order, wins, share, odd, steps)) == share * winners_met(order, wins, steps)
            + lesser(winners_met(order, wins, steps), odd),
        forall|s: int|
            steps <= s < order.len() ==> handed_out(order, wins, share, odd, steps)[walk_seat(
                order,
                s,
            )] == 0,
        forall|s: int|
            0 <= s < steps ==> handed_out(order, wins, share, odd, steps)[walk_seat(order, s)] == (
            if wins[walk_seat(order, s)] {
                share + if winners_met(order, wins, s) < odd {
                    1int
                } else {
                    0int
                }
            } else {
                0
            }),
    decreases steps,
{
    let n = order.len() as int;
    if steps <= 0 {
        lemma_sum_zeros(wins.len());
    } else {
        lemma_handed_out(order, wins, share, odd, steps - 1);
        lemma_winners_met(order, wins, steps - 1);
        let before = handed_out(order, wins, share, odd, steps - 1);
        let now = handed_out(order, wins, share, odd, steps);
        let id = walk_seat(order, steps - 1);
        let met = winners_met(order, wins, steps - 1);
        assert(0 <= id < n);
        assert(before[id] == 0);
        assert forall|s: int| 0 <= s < n && s != steps - 1 implies walk_seat(order, s) != id by {
            lemma_walk_meets_once(order, s, steps - 1);
        }
        if wins[id] {
            let given = share + if met < odd {
                1int
            } else {
                0int
            };
            lemma_sum_update(before, id, given);
            assert(share * (met + 1) == share * met + share) by (nonlinear_arith);
        }
        assert forall|s: int| 0 <= s < steps implies now[walk_seat(order, s)] == (if wins[walk_seat(
            order,
            s,
        )] {
            share + if winners_met(order, wins, s) < odd {
                1int
            } else {
                0int
            }
        } else {
            0
        }) by {
            if s < steps - 1 {
                assert(before[walk_seat(order, s)] == (if wins[walk_seat(order, s)] {
                    share + if winners_met(order, wins, s) < odd {
                        1int
                    } else {
                        0int
                    }
                } else {
                    0
                }));
            }
        }
    }
}

/// A split hands out the whole pot and nothing else: every winner gets the
/// equal share or one chip more, and nobody else gets anything.
pub proof fn lemma_split(order: Seq<usize>, wins: Seq<bool>, pot: int)
    requires
        is_seating(order, order.len() as int),
        wins.len() == order.len(),
        pot >= 0,
        any(wins),
    ensures
        split(order, wins, pot).len() == wins.len(),
        winners_met(order, wins, order.len() as int) >= 1,
        sum(split(order, wins, pot)) == pot,
        forall|i: int|
            0 <= i < wins.len() && !wins[i] ==> (#[trigger] split(order, wins, pot)[i]) == 0,
        forall|i: int|
            0 <= i < wins.len() && wins[i] ==> pot / winners_met(order, wins, order.len() as int)
                <= (#[trigger] split(order, wins, pot)[i]) <= pot / winners_met(
                order,
                wins,
                order.len() as int,
            ) + 1,
{
    let n = order.len() as int;
    let heads = winners_met(order, wins, n);
    let w = choose|i: int| 0 <= i < wins.len() && wins[i];
    let at = lemma_walk_meets_all(order, w as usize);
    lemma_winners_met(order, wins, n);
    assert(heads >= 1);
    let share = pot / heads;
    let odd = pot % heads;
    vstd::arithmetic::div_mod::lemma_fundamental_div_mod(pot, heads);
    vstd::arithmetic::div_mod::lemma_mod_pos_bound(pot, heads);
    vstd::arithmetic::div_mod::lemma_div_pos_is_pos(pot, heads);
    lemma_handed_out(order, wins, share, odd, n);
    assert(share * heads == heads * share) by (nonlinear_arith);
    assert forall|i: int| 0 <= i < wins.len() implies (!wins[i] ==> (#[trigger] split(
        order,
        wins,
        pot,
    )[i]) == 0) && (wins[i] ==> share <= split(order, wins, pot)[i] <= share + 1) by {
        let s = lemma_walk_meets_all(order, i as usize);
        assert(walk_seat(order, s) == i);
    }
}

/// The index of a hand that none of the first `k` entitled players beats.
pub proof fn lemma_some_best(strength: Seq<int>, entitled: Seq<bool>, k: int) -> (best: int)
    requires
        0 < k <= entitled.len(),
        exists|i: int| 0 <= i < k && entitled[i],
    ensures
        0 <= best < k,
        entitled[best],
        forall|j: int| 0 <= j < k && entitled[j] ==> strength[j] <= strength[best],
    decreases k,
{
    if exists|i: int| 0 <= i < k - 1 && entitled[i] {
        let before = lemma_some_best(strength, entitled, k - 1);
        if entitled[k - 1] && strength[k - 1] > strength[before] {
            k - 1
        } else {
            before
        }
    } else {
        k - 1
    }
}

/// Where somebody is entitled, somebody wins.
pub proof fn lemma_some_winner(strength: Seq<int>, entitled: Seq<bool>)
    requires
        any(entitled),
    ensures
        any(winners(strength, entitled)),
        winners(strength, entitled).len() == entitled.len(),
{
    let best = lemma_some_best(strength, entitled, entitled.len() as int);
    assert(winners(strength, entitled)[best]);
}

/// What a layer takes: from nobody more than the stake, and nothing from a
/// player without one.
pub proof fn lemma_layer(stakes: Seq<int>, live: Seq<bool>)
    requires
        stakes.len() == live.len(),
        none_negative(stakes),
    ensures
        layer(stakes, live).len() == stakes.len(),
        forall|i: int|
            0 <= i < stakes.len() ==> 0 <= (#[trigger] layer(stakes, live)[i]) <= stakes[i],
        none_negative(layer(stakes, live)),
        none_negative(minus(stakes, layer(stakes, live))),
        0 <= sum(layer(stakes, live)) <= sum(stakes),
{
    lemma_level(stakes, live);
    let take = layer(stakes, live);
    assert forall|i: int| 0 <= i < stakes.len() implies 0 <= (#[trigger] take[i]) <= stakes[i] by {}
    lemma_sum_none_negative(take);
    lemma_sum_monotone(take, stakes);
}

pub proof fn lemma_payouts_len(
    stakes: Seq<int>,
    live: Seq<bool>,
    strength: Seq<int>,
    order: Seq<usize>,
)
    requires
        stakes.len() == live.len(),
        stakes.len() == order.len(),
        is_seating(order, order.len() as int),
        none_negative(stakes),
    ensures
        payouts(stakes, live, strength, order).len() == stakes.len(),
    decreases count(entitled(stakes, live)),
{
    if any(entitled(stakes, live)) {
        let e = entitled(stakes, live);
        lemma_some_winner(strength, e);
        lemma_layer(stakes, live);
        lemma_split(order, winners(strength, e), sum(layer(stakes, live)));
    }
}

/// No chip is lost or made in paying out: the payouts come to what the
/// players have staked, and nobody is paid less than nothing.
pub proof fn law_payouts_conserve_chips(
    stakes: Seq<int>,
    live: Seq<bool>,
    strength: Seq<int>,
    order: Seq<usize>,
)
    requires
        stakes.len() == live.len(),
        stakes.len() == order.len(),
        is_seating(order, order.len() as int),
        none_negative(stakes),
    ensures
        payouts(stakes, live, strength, order).len() == stakes.len(),
        sum(payouts(stakes, live, strength, order)) == sum(stakes),
        none_negative(payouts(stakes, live, strength, order)),
    decreases count(entitled(stakes, live)),
{
    lemma_payouts_len(stakes, live, strength, order);
    if any(entitled(stakes, live)) {
        let e = entitled(stakes, live);
        let take = layer(stakes, live);
        let rest = minus(stakes, take);
        let wins = winners(strength, e);
        lemma_some_winner(strength, e);
        lemma_layer(stakes, live);
        lemma_split(order, wins, sum(take));
        lemma_layer_shrinks(stakes, live);
        law_payouts_conserve_chips(rest, live, strength, order);
        lemma_sum_plus(split(order, wins, sum(take)), payouts(rest, live, strength, order));
        lemma_sum_minus(stakes, take);
        vstd::arithmetic::div_mod::lemma_div_pos_is_pos(
            sum(take),
            winners_met(order, wins, order.len() as int),
        );
        assert forall|i: int| 0 <= i < stakes.len() implies payouts(
            stakes,
            live,
            strength,
            order,
        )[i] >= 0 by {
            assert(split(order, wins, sum(take))[i] >= 0);
            assert(payouts(rest, live, strength, order)[i] >= 0);
        }
    }
}

/// Who can win a layer could win the layer before it: a player who is
/// entitled after a layer was entitled when the layer was taken.
pub proof fn law_entitled_to_earlier_layers(stakes: Seq<int>, live: Seq<bool>, i: int)
    requires
        stakes.len() == live.len(),
        0 <= i < stakes.len(),
        any(entitled(stakes, live)),
        entitled(minus(stakes, layer(stakes, live)), live)[i],
    ensures
        entitled(stakes, live)[i],
{
    lemma_layer_shrinks(stakes, live);
}

/// A player who is out of the hand, or has staked nothing, is paid back the
/// own stake at most: only the entitled win.
pub proof fn law_only_entitled_win(
    stakes: Seq<int>,
    live: Seq<bool>,
    strength: Seq<int>,
    order: Seq<usize>,
    i: int,
)
    requires
        stakes.len() == live.len(),
        stakes.len() == order.len(),
        is_seating(order, order.len() as int),
        none_negative(stakes),
        0 <= i < stakes.len(),
        !entitled(stakes, live)[i],
        any(entitled(stakes, live)),
    ensures
        payouts(stakes, live, strength, order)[i] == 0,
    decreases count(entitled(stakes, live)),
{
    let e = entitled(stakes, live);
    let take = layer(stakes, live);
    let rest = minus(stakes, take);
    let wins = winners(strength, e);
    lemma_some_winner(strength, e);
    lemma_layer(stakes, live);
    lemma_split(order, wins, sum(take));
    lemma_layer_shrinks(stakes, live);
    assert(split(order, wins, sum(take))[i] == 0);
    if any(entitled(rest, live)) {
        law_only_entitled_win(rest, live, strength, order, i);
    } else {
        assert(take =~= stakes);
        assert(rest[i] == 0);
    }
}

fn lowest_stake(left: &Vec<usize>, live: &Vec<bool>) -> (lvl: usize)
    requires
        left.len() == live.len(),
    ensures
        lvl == level(as_ints(left@), live@),
{
    let n: usize = left.len();
    let mut lvl: usize = 0;
    let mut i: usize = 0;
    while i < n
        invariant
            n == left.len(),
            n == live.len(),
            i <= n,
            lvl == least_stake(as_ints(left@), live@, i as int),
        decreases n - i,
    {
        if live[i] && left[i] > 0 && (lvl == 0 || left[i] < lvl) {
            lvl = left[i];
        }
        i = i + 1;
    }
    lvl
}

fn take_layer(left: &Vec<usize>, live: &Vec<bool>, lvl: usize) -> (take: Vec<usize>)
    requires
        left.len() == live.len(),
        lvl == level(as_ints(left@), live@),
    ensures
        as_ints(take@) == layer(as_ints(left@), live@),
        take.len() == left.len(),
        forall|i: int| 0 <= i < left.len() ==> take@[i] <= left@[i],
{
    let n: usize = left.len();
    let ghost stakes = as_ints(left@);
    let ghost rest = minus(stakes, capped(stakes, lvl as int));
    let mut more: bool = false;
    let mut i: usize = 0;
    while i < n
        invariant
            n == left.len(),
            n == live.len(),
            i <= n,
            more <==> exists|j: int| 0 <= j < i && live@[j] && left@[j] > lvl,
        decreases n - i,
    {
        if live[i] && left[i] > lvl {
            more = true;
        }
        i = i + 1;
    }
    proof {
        if more {
            let j = choose|j: int| 0 <= j < n && live@[j] && left@[j] > lvl;
            assert(entitled(rest, live@)[j]);
        }
        if any(entitled(rest, live@)) {
            let j = choose|j: int|
                0 <= j < entitled(rest, live@).len() && entitled(rest, live@)[j];
            assert(live@[j] && left@[j] > lvl);
        }
    }
    let mut take: Vec<usize> = Vec::new();
    let mut k: usize = 0;
    while k < n
        invariant
            n == left.len(),
            k <= n,
            take.len() == k,
            forall|j: int|
                0 <= j < k ==> take@[j] == (if more {
                    lesser(lvl as int, left@[j] as int)
                } else {
                    left@[j] as int
                }),
        decreases n - k,
    {
        if more && lvl < left[k] {
            take.push(lvl);
        } else {
            take.push(left[k]);
        }
        k = k + 1;
    }
    assert(as_ints(take@) =~= layer(stakes, live@));
    take
}

fn best_hands(left: &Vec<usize>, live: &Vec<bool>, strength: &Vec<u64>) -> (wins: Vec<bool>)
    requires
        left.len() == live.len(),
        left.len() == strength.len(),
    ensures
        wins@ == winners(strengths(strength@), entitled(as_ints(left@), live@)),
{
    let n: usize = left.len();
    let ghost e = entitled(as_ints(left@), live@);
    let ghost st = strengths(strength@);
    let mut found: bool = false;
    let mut best: u64 = 0;
    let mut i: usize = 0;
    while i < n
        invariant
            n == left.len(),
            n == live.len(),
            n == strength.len(),
            i <= n,
            e == entitled(as_ints(left@), live@),
            found <==> exists|j: int| 0 <= j < i && e[j],
            found ==> exists|j: int| 0 <= j < i && e[j] && strength@[j] == best,
            forall|j: int| 0 <= j < i && e[j] ==> strength@[j] <= best,
        decreases n - i,
    {
        if live[i] && left[i] > 0 {
            assert(e[i as int]);
            if !found || strength[i] > best {
                best = strength[i];
            }
            found = true;
        }
        i = i + 1;
    }
    let mut wins: Vec<bool> = Vec::new();
    let mut k: usize = 0;
    while k < n
        invariant
            n == left.len(),
            n == live.len(),
            n == strength.len(),
            k <= n,
            wins.len() == k,
            e == entitled(as_ints(left@), live@),
            st == strengths(strength@),
            found <==> exists|j: int| 0 <= j < n && e[j],
            found ==> exists|j: int| 0 <= j < n && e[j] && strength@[j] == best,
            forall|j: int| 0 <= j < n && e[j] ==> strength@[j] <= best,
            forall|j: int| 0 <= j < k ==> wins@[j] == winners(st, e)[j],
        decreases n - k,
    {
        let won: bool = live[k] && left[k] > 0 && strength[k] == best;
        proof {
            let kk = k as int;
            if won {
                assert forall|j: int| 0 <= j < e.len() && e[j] implies st[j] <= st[kk] by {
                    assert(strength@[j] <= best);
                }
            }
            if winners(st, e)[kk] {
                let w = choose|j: int| 0 <= j < n && e[j] && strength@[j] == best;
                assert(st[w] <= st[kk]);
            }
        }
        wins.push(won);
        k = k + 1;
    }
    assert(wins@ =~= winners(st, e));
    wins
}

fn sum_of(v: &Vec<usize>) -> (total: usize)
    requires
        sum(as_ints(v@)) <= usize::MAX,
    ensures
        total == sum(as_ints(v@)),
{
    let n: usize = v.len();
    let ghost all = as_ints(v@);
    let mut total: usize = 0;
    let mut i: usize = 0;
    while i < n
        invariant
            n == v.len(),
            i <= n,
            all == as_ints(v@),
            sum(all) <= usize::MAX,
            total == sum(all.take(i as int)),
        decreases n - i,
    {
        proof {
            lemma_sum_prefix(all, i + 1);
            assert(all.take(i + 1).drop_last() =~= all.take(i as int));
        }
        total = total + v[i];
        i = i + 1;
    }
    assert(all.take(n as int) =~= all);
    total
}

/// The place that a step of the walk stands at.
fn walk_place(step: usize, n: usize) -> (place: usize)
    requires
        step < n,
    ensures
        place == left_of(step as int, n as int),
        place < n,
{
    if step + 1 < n {
        step + 1
    } else {
        0
    }
}

/// Splits a pot among its winners.
pub fn split_pot(order: &Vec<usize>, wins: &Vec<bool>, pot: usize) -> (award: Vec<usize>)
    requires
        is_seating(order@, order@.len() as int),
        wins.len() == order.len(),
    ensures
        as_ints(award@) == split(order@, wins@, pot as int),
        award.len() == wins.len(),
{
    let n: usize = order.len();
    let mut award: Vec<usize> = Vec::new();
    let mut z: usize = 0;
    while z < n
        invariant
            z <= n,
            award.len() == z,
            forall|j: int| 0 <= j < z ==> award@[j] == 0,
        decreases n - z,
    {
        award.push(0);
        z = z + 1;
    }
    assert(as_ints(award@) =~= zeros(wins@.len()));
    let mut heads: usize = 0;
    let mut step: usize = 0;
    while step < n
        invariant
            n == order.len(),
            n == wins.len(),
            is_seating(order@, n as int),
            step <= n,
            heads == winners_met(order@, wins@, step as int),
            heads <= step,
        decreases n - step,
    {
        let id: usize = order[walk_place(step, n)];
        if wins[id] {
            heads = heads + 1;
        }
        step = step + 1;
    }
    if heads == 0 {
        return award;
    }
    let share: usize = pot / heads;
    let odd: usize = pot % heads;
    let mut met: usize = 0;
    let mut at: usize = 0;
    while at < n
        invariant
            n == order.len(),
            n == wins.len(),
            n == award.len(),
            is_seating(order@, n as int),
            at <= n,
            heads >= 1,
            share == pot / heads,
            odd == pot % heads,
            met == winners_met(order@, wins@, at as int),
            met <= at,
            as_ints(award@) == handed_out(order@, wins@, share as int, odd as int, at as int),
        decreases n - at,
    {
        let id: usize = order[walk_place(at, n)];
        if wins[id] {
            let extra: usize = if met < odd {
                1
            } else {
                0
            };
            proof {
                vstd::arithmetic::div_mod::lemma_fundamental_div_mod(pot as int, heads as int);
                vstd::arithmetic::div_mod::lemma_mod_pos_bound(pot as int, heads as int);
                assert(heads * share >= share) by (nonlinear_arith)
                    requires
                        heads >= 1,
                        share >= 0,
                ;
            }
            award.set(id, share + extra);
            met = met + 1;
        }
        assert(as_ints(award@) =~= handed_out(
            order@,
            wins@,
            share as int,
            odd as int,
            at as int + 1,
        ));
        at = at + 1;
    }
    award
}

fn add_to(pay: &mut Vec<usize>, more: &Vec<usize>)
    requires
        old(pay).len() == more.len(),
        sum(as_ints(old(pay)@)) + sum(as_ints(more@)) <= usize::MAX,
    ensures
        as_ints(final(pay)@) == plus(as_ints(old(pay)@), as_ints(more@)),
        final(pay).len() == old(pay).len(),
{
    let n: usize = pay.len();
    let ghost before = as_ints(pay@);
    let ghost added = as_ints(more@);
    let mut i: usize = 0;
    while i < n
        invariant
            n == pay.len(),
            n == more.len(),
            i <= n,
            before.len() == n,
            added == as_ints(more@),
            sum(before) + sum(added) <= usize::MAX,
            none_negative(before),
            forall|j: int| 0 <= j < i ==> pay@[j] == before[j] + added[j],
            forall|j: int| i <= j < n ==> pay@[j] == before[j],
        decreases n - i,
    {
        proof {
            lemma_part_within_sum(before, i as int);
            lemma_part_within_sum(added, i as int);
        }
        let v: usize = pay[i] + more[i];
        pay.set(i, v);
        i = i + 1;
    }
    assert(as_ints(pay@) =~= plus(before, added));
}

fn take_from(left: &mut Vec<usize>, take: &Vec<usize>)
    requires
        old(left).len() == take.len(),
        forall|i: int| 0 <= i < take.len() ==> take@[i] <= old(left)@[i],
    ensures
        as_ints(final(left)@) == minus(as_ints(old(left)@), as_ints(take@)),
        final(left).len() == old(left).len(),
{
    let n: usize = left.len();
    let ghost before = left@;
    let mut i: usize = 0;
    while i < n
        invariant
            n == left.len(),
            n == take.len(),
            before.len() == n,
            i <= n,
            forall|j: int| 0 <= j < n ==> take@[j] <= before[j],
            forall|j: int| 0 <= j < i ==> left@[j] == before[j] - take@[j],
            forall|j: int| i <= j < n ==> left@[j] == before[j],
        decreases n - i,
    {
        assert(take@[i as int] <= before[i as int]);
        let v: usize = left[i] - take[i];
        left.set(i, v);
        i = i + 1;
    }
    assert(as_ints(left@) =~= minus(as_ints(before), as_ints(take@)));
}

/// Pays out the stakes of a hand.
///
/// `stakes` holds what each player has put in, `live` who is still in the
/// hand, `strength` how strong each hand is (read for the live players
/// only), `order` where the players sit, the button first.
pub fn resolve_pots(
    stakes: &Vec<usize>,
    live: &Vec<bool>,
    strength: &Vec<u64>,
    order: &Vec<usize>,
) -> (pay: Vec<usize>)
    requires
        stakes.len() == live.len(),
        stakes.len() == strength.len(),
        stakes.len() == order.len(),
        is_seating(order@, order@.len() as int),
        sum(as_ints(stakes@)) <= usize::MAX,
    ensures
        pay.len() == stakes.len(),
        as_ints(pay@) == payouts(as_ints(stakes@), live@, strengths(strength@), order@),
        sum(as_ints(pay@)) == sum(as_ints(stakes@)),
{
    let n: usize = stakes.len();
    let ghost all = as_ints(stakes@);
    let ghost st = strengths(strength@);
    let mut left: Vec<usize> = Vec::new();
    let mut pay: Vec<usize> = Vec::new();
    let mut z: usize = 0;
    while z < n
        invariant
            n == stakes.len(),
            z <= n,
            left.len() == z,
            pay.len() == z,
            forall|j: int| 0 <= j < z ==> left@[j] == stakes@[j],
            forall|j: int| 0 <= j < z ==> pay@[j] == 0,
        decreases n - z,
    {
        left.push(stakes[z]);
        pay.push(0);
        z = z + 1;
    }
    proof {
        assert(as_ints(left@) =~= all);
        assert(as_ints(pay@) =~= zeros(n as nat));
        lemma_sum_zeros(n as nat);
        lemma_payouts_len(all, live@, st, order@);
        assert(payouts(all, live@, st, order@) =~= plus(
            as_ints(pay@),
            payouts(as_ints(left@), live@, st, order@),
        ));
    }
    let mut lvl: usize = lowest_stake(&left, live);
    while lvl > 0
        invariant
            n == stakes.len(),
            n == live.len(),
            n == strength.len(),
            n == order.len(),
            n == left.len(),
            n == pay.len(),
            is_seating(order@, n as int),
            all == as_ints(stakes@),
            st == strengths(strength@),
            sum(all) <= usize::MAX,
            lvl == level(as_ints(left@), live@),
            sum(as_ints(pay@)) + sum(as_ints(left@)) == sum(all),
            payouts(all, live@, st, order@) == plus(
                as_ints(pay@),
                payouts(as_ints(left@), live@, st, order@),
            ),
        decreases count(entitled(as_ints(left@), live@)),
    {
        let ghost now = as_ints(left@);
        let ghost paid = as_ints(pay@);
        let ghost e = entitled(now, live@);
        proof {
            lemma_level(now, live@);
            lemma_layer(now, live@);
            lemma_layer_shrinks(now, live@);
            lemma_some_winner(st, e);
            lemma_sum_none_negative(paid);
        }
        let take: Vec<usize> = take_layer(&left, live, lvl);
        let wins: Vec<bool> = best_hands(&left, live, strength);
        let pot: usize = sum_of(&take);
        let award: Vec<usize> = split_pot(order, &wins, pot);
        proof {
            lemma_split(order@, wins@, pot as int);
            lemma_sum_minus(now, as_ints(take@));
            lemma_sum_plus(paid, as_ints(award@));
            lemma_payouts_len(minus(now, as_ints(take@)), live@, st, order@);
        }
        add_to(&mut pay, &award);
        take_from(&mut left, &take);
        proof {
            let rest = payouts(as_ints(left@), live@, st, order@);
            assert(plus(paid, plus(as_ints(award@), rest)) =~= plus(
                plus(paid, as_ints(award@)),
                rest,
            ));
        }
        lvl = lowest_stake(&left, live);
    }
    proof {
        lemma_level(as_ints(left@), live@);
        lemma_sum_plus(as_ints(pay@), as_ints(left@));
    }
    add_to(&mut pay, &left);
    pay
}

} // verus!
