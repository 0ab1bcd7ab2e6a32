//! The order of the seats round the table, and whose turn comes next.

use vstd::prelude::*;

verus! {

/// A seat order for `n` players: each of the ids `0..n` at exactly one
/// place. The first place is the button.
pub open spec fn is_seating(order: Seq<usize>, n: int) -> bool {
    &&& order.len() == n
    &&& n <= usize::MAX
    &&& forall|k: int| 0 <= k < n ==> order[k] < n
    &&& forall|k: int, m: int| 0 <= k < m < n ==> order[k] != order[m]
    &&& forall|id: usize| id < n ==> order.contains(id)
}

/// The place to the left of a place, which is the next one to act.
pub open spec fn left_of(place: int, n: int) -> int {
    if place + 1 < n {
        place + 1
    } else {
        0
    }
}

/// The place to the right of a place.
pub open spec fn right_of(place: int, n: int) -> int {
    if place > 0 {
        place - 1
    } else {
        n - 1
    }
}

/// The order after the button has moved one seat on: the first place goes
/// to the back.
pub open spec fn button_moved(order: Seq<usize>) -> Seq<usize> {
    if order.len() == 0 {
        order
    } else {
        order.subrange(1, order.len() as int).push(order[0])
    }
}

/// The first player who can act among the `left` places that follow
/// `place` clockwise, if there is one. `able` tells for each id whether the
/// player can act.
pub open spec fn scan_left(able: Seq<bool>, order: Seq<usize>, place: int, left: nat) -> Option<
    usize,
>
    decreases left,
{
    if left == 0 {
        None
    } else {
        let next = left_of(place, order.len() as int);
        if able[order[next] as int] {
            Some(order[next])
        } else {
            scan_left(able, order, next, (left - 1) as nat)
        }
    }
}

/// The same, counter-clockwise.
pub open spec fn scan_right(able: Seq<bool>, order: Seq<usize>, place: int, left: nat) -> Option<
    usize,
>
    decreases left,
{
    if left == 0 {
        None
    } else {
        let next = right_of(place, order.len() as int);
        if able[order[next] as int] {
            Some(order[next])
        } else {
            scan_right(able, order, next, (left - 1) as nat)
        }
    }
}

/// The player who acts after `from`: the first one who can act, going
/// clockwise from the seat after `from` once round the table; `from` again
/// where nobody else can.
pub open spec fn next_able(able: Seq<bool>, order: Seq<usize>, from: usize) -> usize {
    match scan_left(able, order, order.index_of(from), (order.len() - 1) as nat) {
        Some(id) => id,
        None => from,
    }
}

/// The player who acts before `from`: as `next_able`, counter-clockwise.
pub open spec fn prev_able(able: Seq<bool>, order: Seq<usize>, from: usize) -> usize {
    match scan_right(able, order, order.index_of(from), (order.len() - 1) as nat) {
        Some(id) => id,
        None => from,
    }
}

pub proof fn lemma_scan_left_in_range(able: Seq<bool>, order: Seq<usize>, place: int, left: nat)
    requires
        is_seating(order, able.len() as int),
        0 <= place < order.len(),
    ensures
        scan_left(able, order, place, left) matches Some(id) ==> id < able.len() && able[id as int],
    decreases left,
{
    if left > 0 {
        lemma_scan_left_in_range(
            able,
            order,
            left_of(place, order.len() as int),
            (left - 1) as nat,
        );
    }
}

pub proof fn lemma_scan_right_in_range(able: Seq<bool>, order: Seq<usize>, place: int, left: nat)
    requires
        is_seating(order, able.len() as int),
        0 <= place < order.len(),
    ensures
        scan_right(able, order, place, left) matches Some(id)
            ==> id < able.len() && able[id as int],
    decreases left,
{
    if left > 0 {
        lemma_scan_right_in_range(
            able,
            order,
            right_of(place, order.len() as int),
            (left - 1) as nat,
        );
    }
}

/// The next player is a player of the table: one who can act, or `from`.
pub proof fn lemma_next_able_in_range(able: Seq<bool>, order: Seq<usize>, from: usize)
    requires
        is_seating(order, able.len() as int),
        from < able.len(),
    ensures
        next_able(able, order, from) < able.len(),
        next_able(able, order, from) == from || able[next_able(able, order, from) as int],
        prev_able(able, order, from) < able.len(),
        prev_able(able, order, from) == from || able[prev_able(able, order, from) as int],
{
    assert(order.contains(from));
    let place = order.index_of(from);
    lemma_scan_left_in_range(able, order, place, (order.len() - 1) as nat);
    lemma_scan_right_in_range(able, order, place, (order.len() - 1) as nat);
}

/// Moving the button keeps a seat order a seat order.
pub proof fn lemma_button_moved_is_seating(order: Seq<usize>, n: int)
    requires
        is_seating(order, n),
    ensures
        is_seating(button_moved(order), n),
{
    let moved = button_moved(order);
    if n > 0 {
        assert forall|k: int| 0 <= k < n implies moved[k] == order[left_of(k, n)] by {}
        assert forall|id: usize| id < n implies moved.contains(id) by {
            assert(order.contains(id));
            let k = order.index_of(id);
            assert(moved[right_of(k, n)] == id);
        }
    }
}

/// The place of a player in the seat order.
pub fn seat_of(order: &Vec<usize>, id: usize) -> (place: usize)
    requires
        order@.contains(id),
    ensures
        place < order.len(),
        order@[place as int] == id,
        forall|k: int| 0 <= k < place ==> order@[k] != id,
{
    let mut place: usize = 0;
    while order[place] != id
        invariant
            place < order.len(),
            order@.contains(id),
            forall|k: int| 0 <= k < place ==> order@[k] != id,
        decreases order.len() - place,
    {
        place = place + 1;
        assert(place < order.len()) by {
            let k = order@.index_of(id);
            assert(order@[k] == id);
        }
    }
    place
}

/// In a seat order a player has one place only.
pub proof fn lemma_one_place(order: Seq<usize>, n: int, place: int)
    requires
        is_seating(order, n),
        0 <= place < n,
    ensures
        order.index_of(order[place]) == place,
{
    assert(order.contains(order[place]));
    let k = order.index_of(order[place]);
    assert(order[k] == order[place]);
    if k < place {
        assert(order[k] != order[place]);
    } else if place < k {
        assert(order[place] != order[k]);
    }
}

/// Whether the sequence is a seat order for as many players as it is long.
pub fn is_seat_order(order: &Vec<usize>) -> (b: bool)
    ensures
        b == is_seating(order@, order@.len() as int),
{
    let n: usize = order.len();
    let mut id: usize = 0;
    while id < n
        invariant
            n == order.len(),
            id <= n,
            forall|x: usize| x < id ==> order@.contains(x),
        decreases n - id,
    {
        let mut k: usize = 0;
        let mut found: bool = false;
        while k < n && !found
            invariant
                n == order.len(),
                k <= n,
                found ==> order@.contains(id),
                !found ==> forall|j: int| 0 <= j < k ==> order@[j] != id,
            decreases n - k + if found { 0int } else { 1int },
        {
            if order[k] == id {
                found = true;
            } else {
                k = k + 1;
            }
        }
        if !found {
            assert(!order@.contains(id));
            return false;
        }
        id = id + 1;
    }
    // Every id has a place. No place may hold a number that is no id, or an
    // id that another place holds.
    let mut a: usize = 0;
    while a < n
        invariant
            n == order.len(),
            a <= n,
            forall|x: usize| x < n ==> order@.contains(x),
            forall|k: int| 0 <= k < a ==> order@[k] < n,
            forall|k: int, m: int| 0 <= k < m < a ==> order@[k] != order@[m],
        decreases n - a,
    {
        if order[a] >= n {
            return false;
        }
        let mut b: usize = 0;
        while b < a
            invariant
                n == order.len(),
                a < n,
                b <= a,
                forall|k: int| 0 <= k < b ==> order@[k] != order@[a as int],
            decreases a - b,
        {
            if order[b] == order[a] {
                return false;
            }
            b = b + 1;
        }
        a = a + 1;
    }
    true
}


/// The place that lies `steps` places to the left of a place.
pub open spec fn place_after(place: int, steps: int, n: int) -> int {
    if place + steps < n {
        place + steps
    } else {
        place + steps - n
    }
}

/// Where the scan to the left finds nobody, nobody can act at the places
/// that it has passed.
pub proof fn lemma_scan_left_none(able: Seq<bool>, order: Seq<usize>, place: int, left: nat)
    requires
        is_seating(order, able.len() as int),
        0 <= place < order.len(),
        left <= order.len() - 1,
        scan_left(able, order, place, left) is None,
    ensures
        forall|j: int|
            1 <= j <= left
                ==> !able[order[#[trigger] place_after(place, j, order.len() as int)] as int],
    decreases left,
{
    let n = order.len() as int;
    if left > 0 {
        let next = left_of(place, n);
        lemma_scan_left_none(able, order, next, (left - 1) as nat);
        assert forall|j: int| 1 <= j <= left implies !able[order[#[trigger] place_after(
            place,
            j,
            n,
        )] as int] by {
            if j == 1 {
                assert(place_after(place, 1, n) == next);
            } else {
                assert(place_after(next, j - 1, n) == place_after(place, j, n));
            }
        }
    }
}

/// Where anybody can act, the next player can: the turn never goes to a
/// player who cannot act.
pub proof fn lemma_next_able_can_act(able: Seq<bool>, order: Seq<usize>, from: usize, other: int)
    requires
        is_seating(order, able.len() as int),
        from < able.len(),
        0 <= other < able.len(),
        able[other],
    ensures
        able[next_able(able, order, from) as int],
{
    let n = order.len() as int;
    assert(order.contains(from));
    let place = order.index_of(from);
    lemma_scan_left_in_range(able, order, place, (n - 1) as nat);
    if scan_left(able, order, place, (n - 1) as nat) is None {
        lemma_scan_left_none(able, order, place, (n - 1) as nat);
        if other != from {
            assert(order.contains(other as usize));
            let q = order.index_of(other as usize);
            let j = if q > place {
                q - place
            } else {
                q - place + n
            };
            assert(q != place);
            assert(place_after(place, j, n) == q);
            assert(!able[order[place_after(place, j, n)] as int]);
        }
    }
}


/// Whom the scan to the left finds sits at one of the places that it has
/// passed.
pub proof fn lemma_scan_left_some(able: Seq<bool>, order: Seq<usize>, place: int, left: nat)
    requires
        is_seating(order, able.len() as int),
        0 <= place < order.len(),
        left <= order.len() - 1,
    ensures
        scan_left(able, order, place, left) matches Some(id) ==> exists|j: int|
            1 <= j <= left && id == order[#[trigger] place_after(place, j, order.len() as int)],
    decreases left,
{
    let n = order.len() as int;
    if left > 0 {
        let next = left_of(place, n);
        if able[order[next] as int] {
            assert(place_after(place, 1, n) == next);
        } else {
            lemma_scan_left_some(able, order, next, (left - 1) as nat);
            if scan_left(able, order, next, (left - 1) as nat) is Some {
                let id = scan_left(able, order, next, (left - 1) as nat)->Some_0;
                let j = choose|j: int|
                    1 <= j <= left - 1 && id == order[#[trigger] place_after(next, j, n)];
                assert(place_after(place, j + 1, n) == place_after(next, j, n));
            }
        }
    }
}

/// Where another player can act, the turn goes to another player, who can
/// act.
pub proof fn lemma_next_able_is_another(
    able: Seq<bool>,
    order: Seq<usize>,
    from: usize,
    other: int,
)
    requires
        is_seating(order, able.len() as int),
        from < able.len(),
        0 <= other < able.len(),
        other != from,
        able[other],
    ensures
        next_able(able, order, from) != from,
        able[next_able(able, order, from) as int],
{
    let n = order.len() as int;
    lemma_next_able_can_act(able, order, from, other);
    assert(order.contains(from));
    let place = order.index_of(from);
    if scan_left(able, order, place, (n - 1) as nat) is None {
        lemma_scan_left_none(able, order, place, (n - 1) as nat);
        assert(order.contains(other as usize));
        let q = order.index_of(other as usize);
        let j = if q > place {
            q - place
        } else {
            q - place + n
        };
        assert(place_after(place, j, n) == q);
        assert(!able[order[place_after(place, j, n)] as int]);
    } else {
        lemma_scan_left_some(able, order, place, (n - 1) as nat);
        let id = scan_left(able, order, place, (n - 1) as nat)->Some_0;
        let j = choose|j: int| 1 <= j <= n - 1 && id == order[#[trigger] place_after(place, j, n)];
        let q = place_after(place, j, n);
        if q < place {
            assert(order[q] != order[place]);
        } else {
            assert(order[place] != order[q]);
        }
    }
}

} // verus!
