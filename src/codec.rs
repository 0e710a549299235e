//! Wire tokens and numbers for suits and ranks.
use vstd::prelude::*;
use crate::card::{Rank, Suit};
use crate::error::{parsing_message, Error};

verus! {

/// The token that names a suit on the wire.
pub open spec fn suit_token(s: Suit) -> Seq<char> {
    match s {
        Suit::Spade => "Spade"@,
        Suit::Heart => "Heart"@,
        Suit::Diamond => "Diamond"@,
        Suit::Club => "Club"@,
    }
}

/// The suit that a wire token names, if any.
pub open spec fn parse_suit(t: Seq<char>) -> Option<Suit> {
    if t == "Spade"@ {
        Some(Suit::Spade)
    } else if t == "Heart"@ {
        Some(Suit::Heart)
    } else if t == "Diamond"@ {
        Some(Suit::Diamond)
    } else if t == "Club"@ {
        Some(Suit::Club)
    } else {
        None
    }
}

/// The token that names a rank on the wire.
pub open spec fn rank_token(k: Rank) -> Seq<char> {
    match k {
        Rank::Two => "2"@,
        Rank::Three => "3"@,
        Rank::Four => "4"@,
        Rank::Five => "5"@,
        Rank::Six => "6"@,
        Rank::Seven => "7"@,
        Rank::Eight => "8"@,
        Rank::Nine => "9"@,
        Rank::Ten => "10"@,
        Rank::Jack => "J"@,
        Rank::Queen => "Q"@,
        Rank::King => "K"@,
        Rank::Ace => "A"@,
    }
}

/// The rank that a wire token names, if any.
pub open spec fn parse_rank(t: Seq<char>) -> Option<Rank> {
    if t == "2"@ {
        Some(Rank::Two)
    } else if t == "3"@ {
        Some(Rank::Three)
    } else if t == "4"@ {
        Some(Rank::Four)
    } else if t == "5"@ {
        Some(Rank::Five)
    } else if t == "6"@ {
        Some(Rank::Six)
    } else if t == "7"@ {
        Some(Rank::Seven)
    } else if t == "8"@ {
        Some(Rank::Eight)
    } else if t == "9"@ {
        Some(Rank::Nine)
    } else if t == "10"@ {
        Some(Rank::Ten)
    } else if t == "J"@ {
        Some(Rank::Jack)
    } else if t == "Q"@ {
        Some(Rank::Queen)
    } else if t == "K"@ {
        Some(Rank::King)
    } else if t == "A"@ {
        Some(Rank::Ace)
    } else {
        None
    }
}

/// Whether two strings hold the same characters.
pub fn same_text(a: &str, b: &str) -> (r: bool)
    ensures
        r == (a@ == b@),
{
    a.to_owned() == b.to_owned()
}

impl Suit {
    /// The wire token of the suit.
    pub fn name(self) -> (r: &'static str)
        ensures
            r@ == suit_token(self),
    {
        match self {
            Suit::Spade => "Spade",
            Suit::Heart => "Heart",
            Suit::Diamond => "Diamond",
            Suit::Club => "Club",
        }
    }

    /// The suit named by a wire token; a parsing error for any other token.
    pub fn from_str(s: &str) -> (r: Result<Suit, Error>)
        ensures
            parse_suit(s@) matches Some(x) ==> (r matches Ok(y) && y == x),
            parse_suit(s@) is None ==> (r matches Err(Error::Parsing(m)) && m@ == parsing_message(
                "Suit"@,
                s@,
            )),
    {
        if same_text(s, "Spade") {
            Ok(Suit::Spade)
        } else if same_text(s, "Heart") {
            Ok(Suit::Heart)
        } else if same_text(s, "Diamond") {
            Ok(Suit::Diamond)
        } else if same_text(s, "Club") {
            Ok(Suit::Club)
        } else {
            Err(Error::parsing("Suit", s))
        }
    }
}

impl Rank {
    /// The wire token of the rank.
    pub fn name(self) -> (r: &'static str)
        ensures
            r@ == rank_token(self),
    {
        match self {
            Rank::Two => "2",
            Rank::Three => "3",
            Rank::Four => "4",
            Rank::Five => "5",
            Rank::Six => "6",
            Rank::Seven => "7",
            Rank::Eight => "8",
            Rank::Nine => "9",
            Rank::Ten => "10",
            Rank::Jack => "J",
            Rank::Queen => "Q",
            Rank::King => "K",
            Rank::Ace => "A",
        }
    }

    /// The rank named by a wire token; a parsing error for any other token.
    pub fn from_str(s: &str) -> (r: Result<Rank, Error>)
        ensures
            parse_rank(s@) matches Some(x) ==> (r matches Ok(y) && y == x),
            parse_rank(s@) is None ==> (r matches Err(Error::Parsing(m)) && m@ == parsing_message(
                "Rank"@,
                s@,
            )),
    {
        if same_text(s, "2") {
            Ok(Rank::Two)
        } else if same_text(s, "3") {
            Ok(Rank::Three)
        } else if same_text(s, "4") {
            Ok(Rank::Four)
        } else if same_text(s, "5") {
            Ok(Rank::Five)
        } else if same_text(s, "6") {
            Ok(Rank::Six)
        } else if same_text(s, "7") {
            Ok(Rank::Seven)
        } else if same_text(s, "8") {
            Ok(Rank::Eight)
        } else if same_text(s, "9") {
            Ok(Rank::Nine)
        } else if same_text(s, "10") {
            Ok(Rank::Ten)
        } else if same_text(s, "J") {
            Ok(Rank::Jack)
        } else if same_text(s, "Q") {
            Ok(Rank::Queen)
        } else if same_text(s, "K") {
            Ok(Rank::King)
        } else if same_text(s, "A") {
            Ok(Rank::Ace)
        } else {
            Err(Error::parsing("Rank", s))
        }
    }
}

/// Every suit's token parses back to that suit.
pub proof fn lemma_suit_token_round_trip(s: Suit)
    ensures
        parse_suit(suit_token(s)) == Some(s),
{
    reveal_strlit("Spade");
    reveal_strlit("Heart");
    reveal_strlit("Diamond");
    reveal_strlit("Club");
    assert("Spade"@[0] == 'S' && "Heart"@[0] == 'H' && "Spade"@.len() == 5 && "Heart"@.len() == 5);
    assert("Diamond"@.len() == 7 && "Club"@.len() == 4);
}

/// Every rank's token parses back to that rank.
pub proof fn lemma_rank_token_round_trip(k: Rank)
    ensures
        parse_rank(rank_token(k)) == Some(k),
{
    reveal_strlit("2");
    reveal_strlit("3");
    reveal_strlit("4");
    reveal_strlit("5");
    reveal_strlit("6");
    reveal_strlit("7");
    reveal_strlit("8");
    reveal_strlit("9");
    reveal_strlit("10");
    reveal_strlit("J");
    reveal_strlit("Q");
    reveal_strlit("K");
    reveal_strlit("A");
    assert("2"@[0] == '2' && "3"@[0] == '3' && "4"@[0] == '4' && "5"@[0] == '5' && "6"@[0] == '6');
    assert("7"@[0] == '7' && "8"@[0] == '8' && "9"@[0] == '9' && "10"@[0] == '1' && "J"@[0] == 'J');
    assert("Q"@[0] == 'Q' && "K"@[0] == 'K' && "A"@[0] == 'A' && "10"@.len() == 2);
}

impl From<Suit> for &'static str {
    fn from(s: Suit) -> (r: &'static str) {
        s.name()
    }
}

impl vstd::std_specs::convert::FromSpecImpl<Suit> for &'static str {
    open spec fn obeys_from_spec() -> bool {
        false
    }

    open spec fn from_spec(s: Suit) -> &'static str {
        arbitrary()
    }
}

impl From<Suit> for u32 {
    fn from(s: Suit) -> (r: u32) {
        match s {
            Suit::Heart => 1,
            Suit::Diamond => 2,
            Suit::Spade => 3,
            Suit::Club => 4,
        }
    }
}

impl vstd::std_specs::convert::FromSpecImpl<Suit> for u32 {
    open spec fn obeys_from_spec() -> bool {
        true
    }

    open spec fn from_spec(s: Suit) -> u32 {
        s.code()
    }
}

impl From<Rank> for &'static str {
    fn from(k: Rank) -> (r: &'static str) {
        k.name()
    }
}

impl vstd::std_specs::convert::FromSpecImpl<Rank> for &'static str {
    open spec fn obeys_from_spec() -> bool {
        false
    }

    open spec fn from_spec(k: Rank) -> &'static str {
        arbitrary()
    }
}

impl From<Rank> for u32 {
    fn from(k: Rank) -> (r: u32) {
        k.number()
    }
}

impl vstd::std_specs::convert::FromSpecImpl<Rank> for u32 {
    open spec fn obeys_from_spec() -> bool {
        true
    }

    open spec fn from_spec(k: Rank) -> u32 {
        k.value() as u32
    }
}

} // verus!
