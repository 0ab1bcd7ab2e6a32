//! Playing cards as plain values, and their two-character text.

use vstd::prelude::*;

verus! {

/// A playing card.
///
/// `value` counts the face upward from the deuce (0 is a two, 8 a ten, 12 an
/// ace); `suit` is 0 for spades, 1 for clubs, 2 for hearts and 3 for
/// diamonds.
#[derive(Clone, Copy, Debug, PartialEq, Eq, Structural)]
pub struct Card {
    pub value: u8,
    pub suit: u8,
}

impl Card {
    /// A card of the 52-card deck.
    pub open spec fn valid(self) -> bool {
        self.value < 13 && self.suit < 4
    }

    pub fn is_valid(&self) -> (b: bool)
        ensures
            b == self.valid(),
    {
        self.value < 13 && self.suit < 4
    }
}

/// Every card of the sequence belongs to the 52-card deck.
pub open spec fn all_valid(cards: Seq<Card>) -> bool {
    forall|i: int| 0 <= i < cards.len() ==> (#[trigger] cards[i]).valid()
}

/// No card occurs twice in the sequence.
pub open spec fn distinct(cards: Seq<Card>) -> bool {
    forall|i: int, j: int| 0 <= i < j < cards.len() ==> cards[i] != cards[j]
}

/// The character of a face value: `2` to `9`, then `T`, `J`, `Q`, `K`, `A`.
/// A value past the ace reads as an ace.
pub open spec fn value_char(value: u8) -> char {
    if value == 0 {
        '2'
    } else if value == 1 {
        '3'
    } else if value == 2 {
        '4'
    } else if value == 3 {
        '5'
    } else if value == 4 {
        '6'
    } else if value == 5 {
        '7'
    } else if value == 6 {
        '8'
    } else if value == 7 {
        '9'
    } else if value == 8 {
        'T'
    } else if value == 9 {
        'J'
    } else if value == 10 {
        'Q'
    } else if value == 11 {
        'K'
    } else {
        'A'
    }
}

/// The character of a suit: `s`, `c`, `h`, `d`. A suit past diamonds reads
/// as diamonds.
pub open spec fn suit_char(suit: u8) -> char {
    if suit == 0 {
        's'
    } else if suit == 1 {
        'c'
    } else if suit == 2 {
        'h'
    } else {
        'd'
    }
}

/// The text of a card: the character of its value, then that of its suit.
pub open spec fn card_text(card: Card) -> Seq<char> {
    seq![value_char(card.value), suit_char(card.suit)]
}

fn value_str(value: u8) -> (s: &'static str)
    ensures
        s@ == seq![value_char(value)],
{
    proof {
        reveal_strlit("2");
        reveal_strlit("3");
        reveal_strlit("4");
        reveal_strlit("5");
        reveal_strlit("6");
        reveal_strlit("7");
        reveal_strlit("8");
        reveal_strlit("9");
        reveal_strlit("T");
        reveal_strlit("J");
        reveal_strlit("Q");
        reveal_strlit("K");
        reveal_strlit("A");
    }
    let s: &'static str = match value {
        0 => "2",
        1 => "3",
        2 => "4",
        3 => "5",
        4 => "6",
        5 => "7",
        6 => "8",
        7 => "9",
        8 => "T",
        9 => "J",
        10 => "Q",
        11 => "K",
        _ => "A",
    };
    assert(s@ =~= seq![value_char(value)]);
    s
}

fn suit_str(suit: u8) -> (s: &'static str)
    ensures
        s@ == seq![suit_char(suit)],
{
    proof {
        reveal_strlit("s");
        reveal_strlit("c");
        reveal_strlit("h");
        reveal_strlit("d");
    }
    let s: &'static str = match suit {
        0 => "s",
        1 => "c",
        2 => "h",
        _ => "d",
    };
    assert(s@ =~= seq![suit_char(suit)]);
    s
}

/// The two-character text of a card, such as `Ah` for the ace of hearts.
pub fn card_to_string(card: &Card) -> (s: String)
    ensures
        s@ == card_text(*card),
{
    let mut s = String::from_str(value_str(card.value));
    s.append(suit_str(card.suit));
    assert(s@ =~= card_text(*card));
    s
}

/// Whether the cards are cards of the deck, each at most once.
pub fn cards_ok(cards: &Vec<Card>) -> (b: bool)
    ensures
        b == (all_valid(cards@) && distinct(cards@)),
{
    let n: usize = cards.len();
    let mut i: usize = 0;
    while i < n
        invariant
            n == cards.len(),
            i <= n,
            all_valid(cards@.take(i as int)),
            distinct(cards@.take(i as int)),
        decreases n - i,
    {
        if !cards[i].is_valid() {
            assert(!cards@[i as int].valid());
            return false;
        }
        let mut j: usize = 0;
        while j < i
            invariant
                n == cards.len(),
                i < n,
                j <= i,
                forall|a: int| 0 <= a < j ==> cards@[a] != cards@[i as int],
            decreases i - j,
        {
            if cards[j].value == cards[i].value && cards[j].suit == cards[i].suit {
                assert(cards@[j as int] == cards@[i as int]);
                return false;
            }
            j = j + 1;
        }
        proof {
            let before = cards@.take(i as int);
            let after = cards@.take(i + 1);
            assert forall|a: int| 0 <= a < after.len() implies (#[trigger] after[a]).valid() by {
                if a < i {
                    assert(before[a].valid());
                }
            }
            assert forall|a: int, b: int| 0 <= a < b < after.len() implies after[a] != after[b] by {
                if b < i {
                    assert(before[a] != before[b]);
                }
            }
        }
        i = i + 1;
    }
    assert(cards@.take(n as int) =~= cards@);
    true
}

} // verus!
