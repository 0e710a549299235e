//! The snapshot of the game that the engine decides from.
use vstd::prelude::*;
use crate::card::{Card, DECK_SIZE};
use crate::card_set::CardSet;
use crate::deal::Deal;
use crate::player::PlayerName;
use crate::codec::same_text;
use crate::error::{parsing_message, Error};

verus! {

/// Lifecycle of a game instance.
#[derive(Clone, Copy, Debug, PartialEq, Eq, Structural)]
pub enum GameInstanceState {
    NotStarted,
    Initiated,
    Open,
    Running,
    Finished,
    Cancelled,
}

/// Lifecycle of a round.
#[derive(Clone, Copy, Debug, PartialEq, Eq, Structural)]
pub enum RoundState {
    NotStarted,
    Initiated,
    Running,
    Finished,
    Cancelled,
}

/// Phase of this participant's game within a running round.
#[derive(Clone, Copy, Debug, PartialEq, Eq, Structural)]
pub enum HeartsGameInstanceState {
    NotStarted,
    Initiated,
    Passing,
    Dealing,
    Finished,
    Cancelled,
}

/// The points that one card carries in a round.
#[derive(Clone, Copy, Debug, PartialEq, Eq, Structural)]
pub struct CardPoints {
    pub card: Card,
    pub points: i32,
}

impl CardPoints {
    pub fn new(card: Card, points: i32) -> (r: CardPoints)
        ensures
            r == (CardPoints { card, points }),
    {
        CardPoints { card, points }
    }
}

/// Per-round configuration.
#[derive(Clone, Debug)]
pub struct RoundParameters {
    pub round_id: u32,
    pub initiation_phase_in_seconds: u32,
    pub passing_phase_in_seconds: u32,
    pub dealing_phase_in_seconds: u32,
    pub finishing_phase_in_seconds: u32,
    pub number_of_cards_to_be_passed: u32,
    /// Points of each card, by the card's position in the canonical order;
    /// a card without an entry in the round's table carries 0.
    pub card_points: Vec<i32>,
}

impl RoundParameters {
    pub open spec fn wf(&self) -> bool {
        self.card_points@.len() == 52
    }

    /// The points that card `c` carries.
    pub open spec fn points_of(&self, c: Card) -> int {
        self.card_points@[c.index()] as int
    }

    /// Parameters in which no card carries points.
    pub fn new(
        round_id: u32,
        initiation_phase_in_seconds: u32,
        passing_phase_in_seconds: u32,
        dealing_phase_in_seconds: u32,
        finishing_phase_in_seconds: u32,
        number_of_cards_to_be_passed: u32,
    ) -> (r: RoundParameters)
        ensures
            r.wf(),
            forall|c: Card| r.points_of(c) == 0,
            r.round_id == round_id,
            r.initiation_phase_in_seconds == initiation_phase_in_seconds,
            r.passing_phase_in_seconds == passing_phase_in_seconds,
            r.dealing_phase_in_seconds == dealing_phase_in_seconds,
            r.finishing_phase_in_seconds == finishing_phase_in_seconds,
            r.number_of_cards_to_be_passed == number_of_cards_to_be_passed,
    {
        let mut card_points: Vec<i32> = Vec::new();
        let mut i: usize = 0;
        while i < DECK_SIZE
            invariant
                i <= DECK_SIZE,
                card_points@.len() == i,
                forall|j: int| 0 <= j < i ==> card_points@[j] == 0,
            decreases DECK_SIZE - i,
        {
            card_points.push(0);
            i = i + 1;
        }
        let r = RoundParameters {
            round_id,
            initiation_phase_in_seconds,
            passing_phase_in_seconds,
            dealing_phase_in_seconds,
            finishing_phase_in_seconds,
            number_of_cards_to_be_passed,
            card_points,
        };
        assert forall|c: Card| r.points_of(c) == 0 by {
            crate::card::lemma_card_index(c);
        }
        r
    }

    /// Sets the points of one card; the other cards keep theirs.
    pub fn set_points(&mut self, card: Card, points: i32)
        requires
            old(self).wf(),
        ensures
            final(self).wf(),
            final(self).points_of(card) == points,
            forall|c: Card| c != card ==> final(self).points_of(c) == old(self).points_of(c),
            final(self).number_of_cards_to_be_passed == old(self).number_of_cards_to_be_passed,
            final(self).round_id == old(self).round_id,
            final(self).initiation_phase_in_seconds == old(self).initiation_phase_in_seconds,
            final(self).passing_phase_in_seconds == old(self).passing_phase_in_seconds,
            final(self).dealing_phase_in_seconds == old(self).dealing_phase_in_seconds,
            final(self).finishing_phase_in_seconds == old(self).finishing_phase_in_seconds,
    {
        let i = card.position();
        self.card_points.set(i, points);
        assert forall|c: Card| c != card implies final(self).points_of(c) == old(self).points_of(c) by {
            crate::card::lemma_index_injective(c, card);
            crate::card::lemma_card_index(c);
        }
    }

    /// The points that `card` carries.
    pub fn points(&self, card: &Card) -> (r: i32)
        requires
            self.wf(),
        ensures
            r as int == self.points_of(*card),
    {
        self.card_points[card.position()]
    }
}

/// A participant as this participant sees it.
#[derive(Clone, Debug)]
pub struct GameParticipant {
    pub team_name: PlayerName,
    pub left_participant: PlayerName,
    pub number_of_cards_in_hand: u32,
    pub has_turn: bool,
    pub current_score: i32,
}

/// A read-only snapshot of the game.
#[derive(Clone, Debug)]
pub struct GameStatus {
    pub current_game_id: String,
    pub current_game_state: GameInstanceState,
    pub current_round_id: u32,
    pub current_round_state: RoundState,
    pub round_parameters: RoundParameters,
    pub game_state: HeartsGameInstanceState,
    pub game_state_description: String,
    pub game_players: Vec<GameParticipant>,
    pub my_initial_hand: CardSet,
    pub cards_passed_by_me: CardSet,
    pub cards_passed_to_me: CardSet,
    pub my_final_hand: CardSet,
    pub my_current_hand: CardSet,
    pub game_deals: Vec<Deal>,
    pub in_progress_deal: Option<Deal>,
    pub is_my_turn: bool,
}

impl GameStatus {
    /// Every part of the snapshot is well formed.
    pub open spec fn wf(&self) -> bool {
        &&& self.round_parameters.wf()
        &&& self.my_initial_hand.wf()
        &&& self.cards_passed_by_me.wf()
        &&& self.cards_passed_to_me.wf()
        &&& self.my_final_hand.wf()
        &&& self.my_current_hand.wf()
    }

    /// Card `c` was played in a completed trick of this round.
    pub open spec fn played_in_deals(&self, c: Card) -> bool {
        exists|k: int| 0 <= k < self.game_deals@.len() && (#[trigger] self.game_deals@[k]).has_card(c)
    }

    /// Card `c` was played in the trick in progress.
    pub open spec fn played_in_progress(&self, c: Card) -> bool {
        self.in_progress_deal matches Some(d) && d.has_card(c)
    }

    /// The cards whose place is unknown: all cards but those played this
    /// round and those in this participant's current hand.
    pub open spec fn unplayed(&self) -> Set<Card> {
        Set::new(
            |c: Card|
                !self.played_in_deals(c) && !self.played_in_progress(c)
                    && !self.my_current_hand@.contains(c),
        )
    }

    pub fn unplayed_cards(&self) -> (r: CardSet)
        requires
            self.wf(),
        ensures
            r.wf(),
            r@ == self.unplayed(),
    {
        let mut cards = CardSet::full();
        let mut k: usize = 0;
        while k < self.game_deals.len()
            invariant
                cards.wf(),
                k <= self.game_deals@.len(),
                cards@ == Set::new(
                    |c: Card|
                        !(exists|k2: int|
                            0 <= k2 < k && (#[trigger] self.game_deals@[k2]).has_card(c)),
                ),
            decreases self.game_deals@.len() - k,
        {
            let deal = &self.game_deals[k];
            remove_plays(&mut cards, deal);
            assert(cards@ =~= Set::new(
                |c: Card|
                    !(exists|k2: int|
                        0 <= k2 < k + 1 && (#[trigger] self.game_deals@[k2]).has_card(c)),
            )) by {
                assert forall|c: Card|
                    (exists|k2: int| 0 <= k2 < k + 1 && (#[trigger] self.game_deals@[k2]).has_card(c))
                        <==> ((exists|k2: int|
                        0 <= k2 < k && (#[trigger] self.game_deals@[k2]).has_card(c))
                        || deal.has_card(c)) by {
                    if deal.has_card(c) {
                        assert(self.game_deals@[k as int].has_card(c));
                    }
                }
            }
            k = k + 1;
        }
        match &self.in_progress_deal {
            Some(deal) => remove_plays(&mut cards, deal),
            None => {},
        }
        let mut i: usize = 0;
        while i < DECK_SIZE
            invariant
                cards.wf(),
                self.wf(),
                i <= DECK_SIZE,
                cards@ == Set::new(
                    |c: Card|
                        !self.played_in_deals(c) && !self.played_in_progress(c) && !(
                        self.my_current_hand@.contains(c) && c.index() < i),
                ),
            decreases DECK_SIZE - i,
        {
            if self.my_current_hand.contains_at(i) {
                let c = Card::at(i);
                cards.remove(&c);
            }
            assert(cards@ =~= Set::new(
                |c: Card|
                    !self.played_in_deals(c) && !self.played_in_progress(c) && !(
                    self.my_current_hand@.contains(c) && c.index() < i + 1),
            )) by {
                assert forall|d: Card| d.index() == i <==> d == crate::card::card_at(i as int) by {
                    crate::card::lemma_card_at_index(i as int);
                    crate::card::lemma_index_injective(d, crate::card::card_at(i as int));
                }
            }
            i = i + 1;
        }
        assert(cards@ =~= self.unplayed()) by {
            assert forall|c: Card| c.index() < 52 by {
                crate::card::lemma_card_index(c);
            }
        }
        cards
    }
}

/// Removes from `cards` every card played in `deal`.
fn remove_plays(cards: &mut CardSet, deal: &Deal)
    requires
        old(cards).wf(),
    ensures
        final(cards).wf(),
        final(cards)@ == old(cards)@.filter(|c: Card| !deal.has_card(c)),
{
    let mut j: usize = 0;
    while j < deal.deal_cards.len()
        invariant
            cards.wf(),
            j <= deal.deal_cards@.len(),
            cards@ == old(cards)@.filter(
                |c: Card|
                    !(exists|j2: int|
                        0 <= j2 < j && (#[trigger] deal.deal_cards@[j2]).card == c),
            ),
        decreases deal.deal_cards@.len() - j,
    {
        let c = deal.deal_cards[j].card;
        cards.remove(&c);
        assert(cards@ =~= old(cards)@.filter(
            |d: Card|
                !(exists|j2: int| 0 <= j2 < j + 1 && (#[trigger] deal.deal_cards@[j2]).card == d),
        )) by {
            assert(deal.deal_cards@[j as int].card == c);
        }
        j = j + 1;
    }
    assert(cards@ =~= old(cards)@.filter(|c: Card| !deal.has_card(c)));
}

/// The wire token of a game lifecycle state.
pub open spec fn game_instance_token(s: GameInstanceState) -> Seq<char> {
    match s {
        GameInstanceState::NotStarted => "NotStarted"@,
        GameInstanceState::Initiated => "Initiated"@,
        GameInstanceState::Open => "Open"@,
        GameInstanceState::Running => "Running"@,
        GameInstanceState::Finished => "Finished"@,
        GameInstanceState::Cancelled => "Cancelled"@,
    }
}

/// The wire token of a round lifecycle state.
pub open spec fn round_token(s: RoundState) -> Seq<char> {
    match s {
        RoundState::NotStarted => "NotStarted"@,
        RoundState::Initiated => "Initiated"@,
        RoundState::Running => "Running"@,
        RoundState::Finished => "Finished"@,
        RoundState::Cancelled => "Cancelled"@,
    }
}

/// The wire token of a participant's game phase.
pub open spec fn hearts_game_token(s: HeartsGameInstanceState) -> Seq<char> {
    match s {
        HeartsGameInstanceState::NotStarted => "NotStarted"@,
        HeartsGameInstanceState::Initiated => "Initiated"@,
        HeartsGameInstanceState::Passing => "Passing"@,
        HeartsGameInstanceState::Dealing => "Dealing"@,
        HeartsGameInstanceState::Finished => "Finished"@,
        HeartsGameInstanceState::Cancelled => "Cancelled"@,
    }
}

impl GameInstanceState {
    pub fn name(self) -> (r: &'static str)
        ensures
            r@ == game_instance_token(self),
    {
        match self {
            GameInstanceState::NotStarted => "NotStarted",
            GameInstanceState::Initiated => "Initiated",
            GameInstanceState::Open => "Open",
            GameInstanceState::Running => "Running",
            GameInstanceState::Finished => "Finished",
            GameInstanceState::Cancelled => "Cancelled",
        }
    }

    /// The state named by a wire token; a parsing error for any other token.
    pub fn from_str(s: &str) -> (r: Result<GameInstanceState, Error>)
        ensures
            r matches Ok(x) ==> game_instance_token(x) == s@,
            r is Err ==> forall|x: GameInstanceState| game_instance_token(x) != s@,
            (forall|x: GameInstanceState| #[trigger] game_instance_token(x) != s@) ==> r is Err,
            r matches Err(Error::Parsing(m)) ==> m@ == parsing_message("GameInstanceState"@, s@),
            r is Err ==> r matches Err(Error::Parsing(_)),
    {
        if same_text(s, "NotStarted") {
            assert(game_instance_token(GameInstanceState::NotStarted) == s@);
            Ok(GameInstanceState::NotStarted)
        } else if same_text(s, "Initiated") {
            assert(game_instance_token(GameInstanceState::Initiated) == s@);
            Ok(GameInstanceState::Initiated)
        } else if same_text(s, "Open") {
            assert(game_instance_token(GameInstanceState::Open) == s@);
            Ok(GameInstanceState::Open)
        } else if same_text(s, "Running") {
            assert(game_instance_token(GameInstanceState::Running) == s@);
            Ok(GameInstanceState::Running)
        } else if same_text(s, "Finished") {
            assert(game_instance_token(GameInstanceState::Finished) == s@);
            Ok(GameInstanceState::Finished)
        } else if same_text(s, "Cancelled") {
            assert(game_instance_token(GameInstanceState::Cancelled) == s@);
            Ok(GameInstanceState::Cancelled)
        } else {
            proof {
                assert forall|x: GameInstanceState| game_instance_token(x) != s@ by {
                    match x {
                        GameInstanceState::NotStarted => {},
                        GameInstanceState::Initiated => {},
                        GameInstanceState::Open => {},
                        GameInstanceState::Running => {},
                        GameInstanceState::Finished => {},
                        GameInstanceState::Cancelled => {},
                    }
                }
            }
            Err(Error::parsing("GameInstanceState", s))
        }
    }
}

impl RoundState {
    pub fn name(self) -> (r: &'static str)
        ensures
            r@ == round_token(self),
    {
        match self {
            RoundState::NotStarted => "NotStarted",
            RoundState::Initiated => "Initiated",
            RoundState::Running => "Running",
            RoundState::Finished => "Finished",
            RoundState::Cancelled => "Cancelled",
        }
    }

    /// The state named by a wire token; a parsing error for any other token.
    pub fn from_str(s: &str) -> (r: Result<RoundState, Error>)
        ensures
            r matches Ok(x) ==> round_token(x) == s@,
            r is Err ==> forall|x: RoundState| round_token(x) != s@,
            (forall|x: RoundState| #[trigger] round_token(x) != s@) ==> r is Err,
            r matches Err(Error::Parsing(m)) ==> m@ == parsing_message("RoundState"@, s@),
            r is Err ==> r matches Err(Error::Parsing(_)),
    {
        if same_text(s, "NotStarted") {
            assert(round_token(RoundState::NotStarted) == s@);
            Ok(RoundState::NotStarted)
        } else if same_text(s, "Initiated") {
            assert(round_token(RoundState::Initiated) == s@);
            Ok(RoundState::Initiated)
        } else if same_text(s, "Running") {
            assert(round_token(RoundState::Running) == s@);
            Ok(RoundState::Running)
        } else if same_text(s, "Finished") {
            assert(round_token(RoundState::Finished) == s@);
            Ok(RoundState::Finished)
        } else if same_text(s, "Cancelled") {
            assert(round_token(RoundState::Cancelled) == s@);
            Ok(RoundState::Cancelled)
        } else {
            proof {
                assert forall|x: RoundState| round_token(x) != s@ by {
                    match x {
                        RoundState::NotStarted => {},
                        RoundState::Initiated => {},
                        RoundState::Running => {},
                        RoundState::Finished => {},
                        RoundState::Cancelled => {},
                    }
                }
            }
            Err(Error::parsing("RoundState", s))
        }
    }
}

impl HeartsGameInstanceState {
    pub fn name(self) -> (r: &'static str)
        ensures
            r@ == hearts_game_token(self),
    {
        match self {
            HeartsGameInstanceState::NotStarted => "NotStarted",
            HeartsGameInstanceState::Initiated => "Initiated",
            HeartsGameInstanceState::Passing => "Passing",
            HeartsGameInstanceState::Dealing => "Dealing",
            HeartsGameInstanceState::Finished => "Finished",
            HeartsGameInstanceState::Cancelled => "Cancelled",
        }
    }

    /// The phase named by a wire token; a parsing error for any other token.
    pub fn from_str(s: &str) -> (r: Result<HeartsGameInstanceState, Error>)
        ensures
            r matches Ok(x) ==> hearts_game_token(x) == s@,
            r is Err ==> forall|x: HeartsGameInstanceState| hearts_game_token(x) != s@,
            (forall|x: HeartsGameInstanceState| #[trigger] hearts_game_token(x) != s@) ==> r is Err,
            r matches Err(Error::Parsing(m)) ==> m@ == parsing_message("HeartsGameInstanceState"@, s@),
            r is Err ==> r matches Err(Error::Parsing(_)),
    {
        if same_text(s, "NotStarted") {
            assert(hearts_game_token(HeartsGameInstanceState::NotStarted) == s@);
            Ok(HeartsGameInstanceState::NotStarted)
        } else if same_text(s, "Initiated") {
            assert(hearts_game_token(HeartsGameInstanceState::Initiated) == s@);
            Ok(HeartsGameInstanceState::Initiated)
        } else if same_text(s, "Passing") {
            assert(hearts_game_token(HeartsGameInstanceState::Passing) == s@);
            Ok(HeartsGameInstanceState::Passing)
        } else if same_text(s, "Dealing") {
            assert(hearts_game_token(HeartsGameInstanceState::Dealing) == s@);
            Ok(HeartsGameInstanceState::Dealing)
        } else if same_text(s, "Finished") {
            assert(hearts_game_token(HeartsGameInstanceState::Finished) == s@);
            Ok(HeartsGameInstanceState::Finished)
        } else if same_text(s, "Cancelled") {
            assert(hearts_game_token(HeartsGameInstanceState::Cancelled) == s@);
            Ok(HeartsGameInstanceState::Cancelled)
        } else {
            proof {
                assert forall|x: HeartsGameInstanceState| hearts_game_token(x) != s@ by {
                    match x {
                        HeartsGameInstanceState::NotStarted => {},
                        HeartsGameInstanceState::Initiated => {},
                        HeartsGameInstanceState::Passing => {},
                        HeartsGameInstanceState::Dealing => {},
                        HeartsGameInstanceState::Finished => {},
                        HeartsGameInstanceState::Cancelled => {},
                    }
                }
            }
            Err(Error::parsing("HeartsGameInstanceState", s))
        }
    }
}

} // verus!
