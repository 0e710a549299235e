//! Playing cards: suits, ranks, and the canonical card order.
use vstd::prelude::*;

verus! {

/// The four suits, in their canonical order.
#[derive(Clone, Copy, Debug, PartialEq, Eq, Structural, PartialOrd, Ord, Hash)]
pub enum Suit {
    Club,
    Diamond,
    Heart,
    Spade,
}

/// The thirteen ranks, in their canonical order (Ace highest).
#[derive(Clone, Copy, Debug, PartialEq, Eq, Structural, PartialOrd, Ord, Hash)]
pub enum Rank {
    Two,
    Three,
    Four,
    Five,
    Six,
    Seven,
    Eight,
    Nine,
    Ten,
    Jack,
    Queen,
    King,
    Ace,
}

/// A card: compared by suit first, then by rank.
#[derive(Clone, Copy, Debug, PartialEq, Eq, Structural, PartialOrd, Ord, Hash)]
pub struct Card {
    pub suit: Suit,
    pub rank: Rank,
}

/// Number of distinct cards.
pub const DECK_SIZE: usize = 52;

impl Suit {
    /// Position of the suit in the canonical order (0 to 3).
    pub open spec fn order(self) -> int {
        match self {
            Suit::Club => 0,
            Suit::Diamond => 1,
            Suit::Heart => 2,
            Suit::Spade => 3,
        }
    }

    /// The numeric code of a suit on the wire.
    pub open spec fn code(self) -> u32 {
        match self {
            Suit::Heart => 1,
            Suit::Diamond => 2,
            Suit::Spade => 3,
            Suit::Club => 4,
        }
    }

    pub fn position(self) -> (r: usize)
        ensures
            r as int == self.order(),
    {
        match self {
            Suit::Club => 0,
            Suit::Diamond => 1,
            Suit::Heart => 2,
            Suit::Spade => 3,
        }
    }

    /// The suit whose wire code is `num`, if any.
    pub fn from_number(num: &u32) -> (r: Option<Suit>)
        ensures
            r matches Some(s) ==> s.code() == *num,
            r is None <==> !(1 <= *num <= 4),
    {
        match *num {
            1 => Some(Suit::Heart),
            2 => Some(Suit::Diamond),
            3 => Some(Suit::Spade),
            4 => Some(Suit::Club),
            _ => None,
        }
    }
}

pub open spec fn suit_at(i: int) -> Suit {
    if i <= 0 {
        Suit::Club
    } else if i == 1 {
        Suit::Diamond
    } else if i == 2 {
        Suit::Heart
    } else {
        Suit::Spade
    }
}

impl Rank {
    /// The numeric value of a rank, from 2 (Two) to 14 (Ace).
    pub open spec fn value(self) -> int {
        match self {
            Rank::Two => 2,
            Rank::Three => 3,
            Rank::Four => 4,
            Rank::Five => 5,
            Rank::Six => 6,
            Rank::Seven => 7,
            Rank::Eight => 8,
            Rank::Nine => 9,
            Rank::Ten => 10,
            Rank::Jack => 11,
            Rank::Queen => 12,
            Rank::King => 13,
            Rank::Ace => 14,
        }
    }

    pub fn number(self) -> (r: u32)
        ensures
            r as int == self.value(),
    {
        match self {
            Rank::Two => 2,
            Rank::Three => 3,
            Rank::Four => 4,
            Rank::Five => 5,
            Rank::Six => 6,
            Rank::Seven => 7,
            Rank::Eight => 8,
            Rank::Nine => 9,
            Rank::Ten => 10,
            Rank::Jack => 11,
            Rank::Queen => 12,
            Rank::King => 13,
            Rank::Ace => 14,
        }
    }

    /// The rank whose numeric value is `num`, if any.
    pub fn from_number(num: &u32) -> (r: Option<Rank>)
        ensures
            r matches Some(k) ==> k.value() == *num as int,
            r is None <==> !(2 <= *num <= 14),
    {
        match *num {
            2 => Some(Rank::Two),
            3 => Some(Rank::Three),
            4 => Some(Rank::Four),
            5 => Some(Rank::Five),
            6 => Some(Rank::Six),
            7 => Some(Rank::Seven),
            8 => Some(Rank::Eight),
            9 => Some(Rank::Nine),
            10 => Some(Rank::Ten),
            11 => Some(Rank::Jack),
            12 => Some(Rank::Queen),
            13 => Some(Rank::King),
            14 => Some(Rank::Ace),
            _ => None,
        }
    }

    /// The card of this rank in `suit`.
    pub fn of(self, suit: Suit) -> (r: Card)
        ensures
            r == (Card { suit, rank: self }),
    {
        Card::new(suit, self)
    }
}

pub open spec fn rank_with_value(v: int) -> Rank {
    if v <= 2 {
        Rank::Two
    } else if v == 3 {
        Rank::Three
    } else if v == 4 {
        Rank::Four
    } else if v == 5 {
        Rank::Five
    } else if v == 6 {
        Rank::Six
    } else if v == 7 {
        Rank::Seven
    } else if v == 8 {
        Rank::Eight
    } else if v == 9 {
        Rank::Nine
    } else if v == 10 {
        Rank::Ten
    } else if v == 11 {
        Rank::Jack
    } else if v == 12 {
        Rank::Queen
    } else if v == 13 {
        Rank::King
    } else {
        Rank::Ace
    }
}

impl Card {
    /// Position of the card in the canonical order (0 to 51).
    pub open spec fn index(self) -> int {
        13 * self.suit.order() + self.rank.value() - 2
    }

    pub fn new(suit: Suit, rank: Rank) -> (r: Card)
        ensures
            r == (Card { suit, rank }),
    {
        Card { suit, rank }
    }

    pub fn position(&self) -> (r: usize)
        ensures
            r as int == self.index(),
            r < DECK_SIZE,
    {
        13 * self.suit.position() + self.rank.number() as usize - 2
    }

    /// The card at `i` in the canonical order.
    pub fn at(i: usize) -> (r: Card)
        requires
            i < DECK_SIZE,
        ensures
            r == card_at(i as int),
            r.index() == i as int,
    {
        let s: usize = i / 13;
        let v: u32 = (i % 13) as u32 + 2;
        let suit = if s == 0 {
            Suit::Club
        } else if s == 1 {
            Suit::Diamond
        } else if s == 2 {
            Suit::Heart
        } else {
            Suit::Spade
        };
        let rank = match Rank::from_number(&v) {
            Some(k) => k,
            None => Rank::Ace,
        };
        proof {
            lemma_card_at_index(i as int);
        }
        Card { suit, rank }
    }

    /// The canonical order: true when `self` comes strictly before `other`.
    pub fn precedes(&self, other: &Card) -> (r: bool)
        ensures
            r == card_lt(*self, *other),
    {
        self.position() < other.position()
    }
}

/// The card at position `i` of the canonical order.
pub open spec fn card_at(i: int) -> Card {
    Card { suit: suit_at(i / 13), rank: rank_with_value(i % 13 + 2) }
}

/// The canonical strict order on cards.
pub open spec fn card_lt(a: Card, b: Card) -> bool {
    a.index() < b.index()
}

pub proof fn lemma_card_index(c: Card)
    ensures
        0 <= c.index() < 52,
        card_at(c.index()) == c,
{
    let i = c.index();
    assert(i / 13 == c.suit.order() && i % 13 == c.rank.value() - 2) by {
        vstd::arithmetic::div_mod::lemma_fundamental_div_mod_converse(
            i,
            13,
            c.suit.order(),
            c.rank.value() - 2,
        );
    }
}

pub proof fn lemma_card_at_index(i: int)
    requires
        0 <= i < 52,
    ensures
        card_at(i).index() == i,
{
    assert(0 <= i / 13 < 4 && 0 <= i % 13 < 13 && i == 13 * (i / 13) + i % 13) by {
        vstd::arithmetic::div_mod::lemma_fundamental_div_mod(i, 13);
    }
}

pub proof fn lemma_index_injective(a: Card, b: Card)
    ensures
        a.index() == b.index() <==> a == b,
{
    lemma_card_index(a);
    lemma_card_index(b);
}

/// The canonical card order is a strict total order.
pub proof fn lemma_card_order_strict_total(a: Card, b: Card, c: Card)
    ensures
        !card_lt(a, a),
        card_lt(a, b) && card_lt(b, c) ==> card_lt(a, c),
        a != b ==> card_lt(a, b) || card_lt(b, a),
        card_lt(a, b) ==> !card_lt(b, a),
{
    lemma_index_injective(a, b);
}

} // verus!
