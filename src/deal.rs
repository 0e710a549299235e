//! Tricks ("deals"): the cards played into one trick and who won it.
use vstd::prelude::*;
use crate::card::{Card, Suit};
use crate::player::PlayerName;

verus! {

/// One play: a participant and the card they played.
#[derive(Clone, Debug)]
pub struct DealCard {
    pub player_name: PlayerName,
    pub card: Card,
}

/// A trick, in progress or completed. The led suit is absent until the
/// first card is played; the winner is absent until the trick is decided.
#[derive(Clone, Debug)]
pub struct Deal {
    pub deal_number: u32,
    pub initiator: Option<PlayerName>,
    pub suit: Option<Suit>,
    pub deal_cards: Vec<DealCard>,
    pub deal_winner: Option<PlayerName>,
}

impl Deal {
    /// Some play of the trick is card `c`.
    pub open spec fn has_card(&self, c: Card) -> bool {
        exists|j: int| 0 <= j < self.deal_cards@.len() && (#[trigger] self.deal_cards@[j]).card == c
    }

    /// Some play of the trick was made by the participant named `name`.
    pub open spec fn played_by(&self, name: Seq<char>) -> bool {
        exists|j: int|
            0 <= j < self.deal_cards@.len() && (#[trigger] self.deal_cards@[j]).player_name@ == name
    }

    /// The trick was won by the participant named `name`.
    pub open spec fn won_by(&self, name: Seq<char>) -> bool {
        self.deal_winner matches Some(w) && w@ == name
    }
}

} // verus!
