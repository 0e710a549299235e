use hearts::card::{Card, Rank, Suit};
use hearts::card_set::CardSet;
use hearts::dto::{CardDto, GameStatusDto};
use hearts::game_status::{CardPoints, GameInstanceState, GameStatus, HeartsGameInstanceState, RoundParameters, RoundState};

#[test]
fn card_reversible_suit() {
    assert_eq!(Some(Suit::Heart), Suit::from_number(&Suit::Heart.into()));
}

#[test]
fn card_reversible_rank() {
    assert_eq!(Some(Rank::Ace), Rank::from_number(&Rank::Ace.into()));
}

#[test]
fn into_card() {
    let dto = CardDto { suit: "Heart".to_owned(), number: 3, symbol: "3".to_owned() };
    let card = Card::try_from(dto);
    assert_eq!(Card::new(Suit::Heart, Rank::Three), card.unwrap());
}

#[test]
fn from_card() {
    let card = Card::new(Suit::Heart, Rank::Three);
    let dto = CardDto::from(&card);
    assert_eq!(CardDto { suit: "Heart".to_owned(), number: 3, symbol: "3".to_owned() }, dto);
}

#[test]
fn know_all_cards() {
    assert_eq!(52, Card::all().len())
}

#[test]
fn mod_reversible_suit() {
    assert_eq!(Suit::Heart, Suit::from_str(Suit::Heart.into()).unwrap());
}

#[test]
fn mod_reversible_rank() {
    assert_eq!(Rank::Ace, Rank::from_str(Rank::Ace.into()).unwrap());
}

#[test]
fn invalid_rank() {
    assert_eq!(
        "Error while parsing \"1\" as Rank",
        Rank::from_str("1").unwrap_err().description()
    );
}

#[test]
fn equality() {
    let card = Card::new(Suit::Heart, Rank::Ace);
    assert_eq!(CardPoints::new(card, 1), CardPoints::new(card, 1));
}

#[test]
fn invalid_suit_names_the_token() {
    assert_eq!(
        "Error while parsing \"Star\" as Suit",
        Suit::from_str("Star").unwrap_err().description()
    );
}

#[test]
fn card_with_unknown_rank_token_is_rejected() {
    let dto = CardDto { suit: "Club".to_owned(), number: 1, symbol: "1".to_owned() };
    assert_eq!(
        "Error while parsing \"1\" as Rank",
        Card::try_from(dto).unwrap_err().description()
    );
}

#[test]
fn ten_is_encoded_as_ten() {
    let dto = CardDto::from(&Card::new(Suit::Spade, Rank::Ten));
    assert_eq!(CardDto { suit: "Spade".to_owned(), number: 10, symbol: "10".to_owned() }, dto);
}

#[test]
fn rank_numbers_run_from_two_to_fourteen() {
    assert_eq!(2u32, Rank::Two.into());
    assert_eq!(11u32, Rank::Jack.into());
    assert_eq!(14u32, Rank::Ace.into());
    assert_eq!(None, Rank::from_number(&1));
    assert_eq!(None, Rank::from_number(&15));
    assert_eq!(Some(Rank::Queen), Rank::from_number(&12));
}

#[test]
fn suit_numbers_follow_the_wire_codes() {
    assert_eq!(1u32, Suit::Heart.into());
    assert_eq!(4u32, Suit::Club.into());
    assert_eq!(Some(Suit::Spade), Suit::from_number(&3));
    assert_eq!(None, Suit::from_number(&0));
    assert_eq!(None, Suit::from_number(&5));
}

#[test]
fn canonical_order_is_suit_then_rank() {
    let club_ace = Card::new(Suit::Club, Rank::Ace);
    let diamond_two = Card::new(Suit::Diamond, Rank::Two);
    let spade_ace = Card::new(Suit::Spade, Rank::Ace);
    assert!(club_ace.precedes(&diamond_two));
    assert!(!diamond_two.precedes(&club_ace));
    assert!(!club_ace.precedes(&club_ace));
    assert_eq!(0, Card::new(Suit::Club, Rank::Two).position());
    assert_eq!(51, spade_ace.position());
    assert_eq!(spade_ace, Card::at(51));
}

#[test]
fn all_cards_are_distinct_and_ordered() {
    let all = Card::all().to_vec();
    assert_eq!(52, all.len());
    for k in 1..all.len() {
        assert!(all[k - 1].precedes(&all[k]));
    }
}

#[test]
fn card_set_insert_and_remove() {
    let mut set = CardSet::new();
    assert!(set.is_empty());
    let card = Card::new(Suit::Diamond, Rank::Jack);
    set.insert(card);
    set.insert(card);
    assert_eq!(1, set.len());
    assert!(set.contains(&card));
    set.remove(&card);
    assert!(!set.contains(&card));
    assert_eq!(0, set.len());
}

#[test]
fn state_tokens_parse_and_reject() {
    assert_eq!(GameInstanceState::Running, GameInstanceState::from_str("Running").unwrap());
    assert_eq!(RoundState::Finished, RoundState::from_str("Finished").unwrap());
    assert_eq!(HeartsGameInstanceState::Passing, HeartsGameInstanceState::from_str("Passing").unwrap());
    assert_eq!(
        "Error while parsing \"Open\" as RoundState",
        RoundState::from_str("Open").unwrap_err().description()
    );
    assert_eq!("Dealing", HeartsGameInstanceState::Dealing.name());
}

#[test]
fn round_parameters_keep_the_last_entry() {
    let mut rp = RoundParameters::new(1, 0, 0, 0, 0, 3);
    let queen = Card::new(Suit::Spade, Rank::Queen);
    assert_eq!(0, rp.points(&queen));
    rp.set_points(queen, 13);
    rp.set_points(queen, 12);
    assert_eq!(12, rp.points(&queen));
    assert_eq!(0, rp.points(&Card::new(Suit::Spade, Rank::King)));
}

#[test]
fn snapshot_survives_encoding() {
    let mut rp = RoundParameters::new(7, 1, 2, 3, 4, 3);
    rp.set_points(Card::new(Suit::Spade, Rank::Queen), 13);
    rp.set_points(Card::new(Suit::Diamond, Rank::Jack), -10);
    let mut hand = CardSet::new();
    hand.insert(Card::new(Suit::Club, Rank::Five));
    hand.insert(Card::new(Suit::Heart, Rank::King));
    let status = GameStatus {
        current_game_id: "g1".to_owned(),
        current_game_state: GameInstanceState::Running,
        current_round_id: 2,
        current_round_state: RoundState::Running,
        round_parameters: rp,
        game_state: HeartsGameInstanceState::Dealing,
        game_state_description: String::new(),
        game_players: Vec::new(),
        my_initial_hand: CardSet::new(),
        cards_passed_by_me: CardSet::new(),
        cards_passed_to_me: CardSet::new(),
        my_final_hand: CardSet::new(),
        my_current_hand: hand,
        game_deals: Vec::new(),
        in_progress_deal: None,
        is_my_turn: true,
    };
    let dto = GameStatusDto::from(&status);
    assert_eq!("Running", dto.current_game_state);
    assert_eq!(2, dto.round_parameters.card_points.len());
    assert_eq!(2, dto.my_current_hand.len());
    let back = GameStatus::try_from(dto).unwrap();
    assert_eq!(2, back.my_current_hand.len());
    assert!(back.my_current_hand.contains(&Card::new(Suit::Heart, Rank::King)));
    assert_eq!(-10, back.round_parameters.points(&Card::new(Suit::Diamond, Rank::Jack)));
    assert_eq!(13, back.round_parameters.points(&Card::new(Suit::Spade, Rank::Queen)));
    assert_eq!(RoundState::Running, back.current_round_state);
}
