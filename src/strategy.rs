//! Strategies that decide which cards to pass and which card to play.
pub mod rules;
pub mod scoring;
pub mod defensive;
pub mod simple;
pub mod my_card_strategy;

use vstd::prelude::*;
use crate::card::Card;
use crate::game_status::GameStatus;
use crate::player::PlayerName;

verus! {

/// A way of deciding which cards to pass and which card to play.
pub trait CardStrategy {
    /// The cards to pass: distinct cards of the initial hand.
    fn pass_cards(&mut self, game_status: &GameStatus) -> (r: Vec<Card>)
        requires
            game_status.wf(),
        ensures
            r@.no_duplicates(),
            forall|k: int|
                0 <= k < r@.len() ==> game_status.my_initial_hand@.contains(#[trigger] r@[k]),
    ;

    /// The card to play: a card of the current hand.
    fn play_card(&mut self, game_status: &GameStatus) -> (r: Card)
        requires
            game_status.wf(),
            game_status.my_current_hand@.len() > 0,
        ensures
            game_status.my_current_hand@.contains(r),
    ;

    /// The name of the participant the strategy plays for.
    fn player_name(&self) -> &PlayerName;
}

impl CardStrategy for defensive::DefensiveCardStrategy {
    fn pass_cards(&mut self, game_status: &GameStatus) -> (r: Vec<Card>) {
        defensive::DefensiveCardStrategy::pass_cards(self, game_status)
    }

    fn play_card(&mut self, game_status: &GameStatus) -> (r: Card) {
        defensive::DefensiveCardStrategy::play_card(self, game_status)
    }

    fn player_name(&self) -> &PlayerName {
        defensive::DefensiveCardStrategy::player_name(self)
    }
}

impl CardStrategy for simple::SimpleCardStrategy {
    fn pass_cards(&mut self, game_status: &GameStatus) -> (r: Vec<Card>) {
        simple::SimpleCardStrategy::pass_cards(self, game_status)
    }

    fn play_card(&mut self, game_status: &GameStatus) -> (r: Card) {
        simple::SimpleCardStrategy::play_card(self, game_status)
    }

    fn player_name(&self) -> &PlayerName {
        simple::SimpleCardStrategy::player_name(self)
    }
}

} // verus!
