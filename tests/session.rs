use hearts::card::{Rank, Suit};
use hearts::card_set::CardSet;
use hearts::deal::Deal;
use hearts::dto::{CardDto, DealCardDto, DealDto};
use hearts::error::Error;
use hearts::game_status::{GameInstanceState, GameStatus, HeartsGameInstanceState, RoundParameters, RoundState};
use hearts::player::PlayerName;
use hearts::session::{Action, Session};

fn snapshot(game_id: &str, game: GameInstanceState, round_id: u32, round: RoundState, phase: HeartsGameInstanceState) -> GameStatus {
    GameStatus {
        current_game_id: game_id.to_owned(),
        current_game_state: game,
        current_round_id: round_id,
        current_round_state: round,
        round_parameters: RoundParameters::new(round_id, 0, 0, 0, 0, 3),
        game_state: phase,
        game_state_description: String::new(),
        game_players: Vec::new(),
        my_initial_hand: CardSet::new(),
        cards_passed_by_me: CardSet::new(),
        cards_passed_to_me: CardSet::new(),
        my_final_hand: CardSet::new(),
        my_current_hand: CardSet::new(),
        game_deals: Vec::new(),
        in_progress_deal: None,
        is_my_turn: false,
    }
}

#[test]
fn joins_an_open_game_until_it_succeeds() {
    let mut session = Session::new(false);
    let open = snapshot("g", GameInstanceState::Open, 0, RoundState::NotStarted, HeartsGameInstanceState::NotStarted);
    assert_eq!(Action::Join, session.observe(&open));
    assert_eq!(Action::Join, session.observe(&open));
    session.completed(Action::Join);
    assert_eq!(Action::Wait, session.observe(&open));
}

#[test]
fn passes_once_per_round() {
    let mut session = Session::new(false);
    let passing = snapshot("g", GameInstanceState::Running, 1, RoundState::Running, HeartsGameInstanceState::Passing);
    assert_eq!(Action::Pass { round: 1 }, session.observe(&passing));
    session.completed(Action::Pass { round: 1 });
    assert_eq!(Action::Wait, session.observe(&passing));
    let next_round = snapshot("g", GameInstanceState::Running, 2, RoundState::Running, HeartsGameInstanceState::Passing);
    assert_eq!(Action::Pass { round: 2 }, session.observe(&next_round));
}

#[test]
fn plays_once_per_trick_and_only_on_turn() {
    let mut session = Session::new(false);
    let mut dealing = snapshot("g", GameInstanceState::Running, 1, RoundState::Running, HeartsGameInstanceState::Dealing);
    assert_eq!(Action::Wait, session.observe(&dealing));
    dealing.is_my_turn = true;
    dealing.in_progress_deal = Some(Deal { deal_number: 4, initiator: None, suit: None, deal_cards: Vec::new(), deal_winner: None });
    assert_eq!(Action::Play { round: 1, deal: 4 }, session.observe(&dealing));
    session.completed(Action::Play { round: 1, deal: 4 });
    assert_eq!(Action::Wait, session.observe(&dealing));
}

#[test]
fn records_finished_rounds_and_ignores_round_zero() {
    let mut session = Session::new(false);
    let finished = snapshot("g", GameInstanceState::Running, 3, RoundState::Finished, HeartsGameInstanceState::Finished);
    assert_eq!(Action::Record { round: 3 }, session.observe(&finished));
    let idle = snapshot("g", GameInstanceState::Running, 0, RoundState::Running, HeartsGameInstanceState::Passing);
    assert_eq!(Action::Wait, session.observe(&idle));
}

#[test]
fn stops_after_the_game_unless_repeating() {
    let over = snapshot("g", GameInstanceState::Finished, 5, RoundState::Finished, HeartsGameInstanceState::Finished);
    let mut once = Session::new(false);
    assert_eq!(Action::Stop, once.observe(&over));
    assert!(!once.running);
    let mut again = Session::new(true);
    assert_eq!(Action::Wait, again.observe(&over));
    assert!(again.running);
    let cancelled = snapshot("g", GameInstanceState::Cancelled, 5, RoundState::Cancelled, HeartsGameInstanceState::Cancelled);
    assert_eq!(Action::Stop, Session::new(false).observe(&cancelled));
}

#[test]
fn a_new_game_starts_the_memory_afresh() {
    let mut session = Session::new(true);
    let open = snapshot("first", GameInstanceState::Open, 0, RoundState::NotStarted, HeartsGameInstanceState::NotStarted);
    session.observe(&open);
    session.completed(Action::Join);
    assert_eq!(Action::Wait, session.observe(&open));
    let other = snapshot("second", GameInstanceState::Open, 0, RoundState::NotStarted, HeartsGameInstanceState::NotStarted);
    assert_eq!(Action::Join, session.observe(&other));
}

#[test]
fn server_error_without_reason() {
    assert_eq!("Unknown server error", Error::game(None).description());
    assert_eq!("full", Error::game(Some("full".to_owned())).description());
}

fn wire_card(suit: &str, symbol: &str) -> CardDto {
    CardDto { suit: suit.to_owned(), number: 0, symbol: symbol.to_owned() }
}

#[test]
fn trick_decoding_keeps_the_led_suit_only_once_played() {
    let empty = DealDto { deal_number: 1, initiator: None, suit_type: "Heart".to_owned(), deal_cards: Vec::new(), deal_winner: None };
    assert_eq!(None, Deal::try_from(empty).unwrap().suit);
    let played = DealDto {
        deal_number: 2,
        initiator: Some(PlayerName::new("West")),
        suit_type: "Heart".to_owned(),
        deal_cards: vec![DealCardDto { team_name: PlayerName::new("West"), card: wire_card("Heart", "K") }],
        deal_winner: None,
    };
    let deal = Deal::try_from(played).unwrap();
    assert_eq!(Some(Suit::Heart), deal.suit);
    assert_eq!(Rank::King.of(Suit::Heart), deal.deal_cards[0].card);
    assert_eq!("West", deal.deal_cards[0].player_name.as_str());
}

#[test]
fn trick_decoding_rejects_unknown_tokens() {
    let bad_card = DealDto {
        deal_number: 1,
        initiator: None,
        suit_type: "Club".to_owned(),
        deal_cards: vec![DealCardDto { team_name: PlayerName::new("West"), card: wire_card("Clubs", "2") }],
        deal_winner: None,
    };
    assert_eq!("Error while parsing \"Clubs\" as Suit", Deal::try_from(bad_card).unwrap_err().description());
    let bad_suit = DealDto { deal_number: 1, initiator: None, suit_type: "None".to_owned(), deal_cards: Vec::new(), deal_winner: None };
    assert_eq!("Error while parsing \"None\" as Suit", Deal::try_from(bad_suit).unwrap_err().description());
}
