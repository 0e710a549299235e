use hearts::card::{Card, Rank, Suit};
use hearts::card_set::CardSet;
use hearts::deal::{Deal, DealCard};
use hearts::game_status::{GameInstanceState, GameParticipant, GameStatus, HeartsGameInstanceState, RoundParameters, RoundState};
use hearts::player::PlayerName;
use hearts::strategy::defensive::{score_card, Analysis, CardScore, DefensiveCardStrategy};
use hearts::strategy::rules::player_void_suits;
use hearts::strategy::my_card_strategy::MyCardStrategy;
use hearts::strategy::simple::SimpleCardStrategy;
use hearts::strategy::CardStrategy;

const ME: &str = "Derek Williams";

const RANKS: [Rank; 13] = [
    Rank::Two, Rank::Three, Rank::Four, Rank::Five, Rank::Six, Rank::Seven, Rank::Eight,
    Rank::Nine, Rank::Ten, Rank::Jack, Rank::Queen, Rank::King, Rank::Ace,
];

fn points() -> RoundParameters {
    let mut rp = RoundParameters::new(1, 0, 0, 0, 0, 3);
    for rank in RANKS.iter() {
        rp.set_points(rank.of(Suit::Heart), 1);
    }
    rp.set_points(Rank::Queen.of(Suit::Spade), 13);
    rp
}

fn set(cards: &[Card]) -> CardSet {
    let mut s = CardSet::new();
    for card in cards {
        s.insert(*card);
    }
    s
}

fn participant(name: &str, has_turn: bool) -> GameParticipant {
    GameParticipant {
        team_name: PlayerName::new(name),
        left_participant: PlayerName::new("x"),
        number_of_cards_in_hand: 13,
        has_turn,
        current_score: 0,
    }
}

fn players() -> Vec<GameParticipant> {
    vec![participant(ME, true), participant("West", false), participant("North", false), participant("East", false)]
}

fn deal(number: u32, plays: &[(&str, Card)], winner: Option<&str>) -> Deal {
    Deal {
        deal_number: number,
        initiator: plays.first().map(|p| PlayerName::new(p.0)),
        suit: plays.first().map(|p| p.1.suit),
        deal_cards: plays.iter().map(|p| DealCard { player_name: PlayerName::new(p.0), card: p.1 }).collect(),
        deal_winner: winner.map(PlayerName::new),
    }
}

fn status(rp: RoundParameters, hand: &[Card], deals: Vec<Deal>, in_progress: Option<Deal>) -> GameStatus {
    GameStatus {
        current_game_id: "game".to_owned(),
        current_game_state: GameInstanceState::Running,
        current_round_id: 1,
        current_round_state: RoundState::Running,
        round_parameters: rp,
        game_state: HeartsGameInstanceState::Dealing,
        game_state_description: String::new(),
        game_players: players(),
        my_initial_hand: set(hand),
        cards_passed_by_me: CardSet::new(),
        cards_passed_to_me: CardSet::new(),
        my_final_hand: set(hand),
        my_current_hand: set(hand),
        game_deals: deals,
        in_progress_deal: in_progress,
        is_my_turn: true,
    }
}

fn should_play(game_status: &GameStatus, expected_card: Card) {
    let card = DefensiveCardStrategy::new(PlayerName::new(ME)).play_card(game_status);
    assert_eq!(expected_card, card);
}

fn diamond_run() -> GameStatus {
    let d1 = deal(1, &[("West", Rank::Three.of(Suit::Diamond)), ("North", Rank::Four.of(Suit::Diamond)), ("East", Rank::Six.of(Suit::Diamond)), (ME, Rank::Seven.of(Suit::Diamond))], Some(ME));
    let d2 = deal(2, &[("West", Rank::Eight.of(Suit::Diamond)), ("North", Rank::Nine.of(Suit::Diamond)), ("East", Rank::Ten.of(Suit::Diamond)), (ME, Rank::Queen.of(Suit::Diamond))], Some(ME));
    let trick = deal(3, &[("West", Rank::Five.of(Suit::Diamond)), ("North", Rank::King.of(Suit::Diamond))], None);
    status(points(), &[Rank::Two.of(Suit::Diamond), Rank::Jack.of(Suit::Diamond), Rank::Ace.of(Suit::Diamond)], vec![d1, d2], Some(trick))
}

#[test]
fn normal_1() {
    should_play(&diamond_run(), Rank::Jack.of(Suit::Diamond));
}

fn last_to_play_clubs() -> GameStatus {
    let trick = deal(1, &[("West", Rank::Three.of(Suit::Club)), ("North", Rank::Four.of(Suit::Club)), ("East", Rank::Five.of(Suit::Club))], None);
    status(points(), &[Rank::Seven.of(Suit::Club), Rank::King.of(Suit::Club), Rank::Two.of(Suit::Heart), Rank::Three.of(Suit::Heart), Rank::Four.of(Suit::Heart)], vec![], Some(trick))
}

#[test]
fn normal_2() {
    should_play(&last_to_play_clubs(), Rank::King.of(Suit::Club));
}

#[test]
fn normal_3() {
    let trick = deal(1, &[("West", Rank::Five.of(Suit::Spade))], None);
    let st = status(points(), &[Rank::Six.of(Suit::Spade), Rank::King.of(Suit::Spade), Rank::Ace.of(Suit::Spade), Rank::Two.of(Suit::Heart), Rank::Three.of(Suit::Heart)], vec![], Some(trick));
    should_play(&st, Rank::Six.of(Suit::Spade));
}

#[test]
fn should_play_heart_1() {
    let trick = deal(1, &[("West", Rank::Three.of(Suit::Club))], None);
    let st = status(points(), &[Rank::Four.of(Suit::Heart), Rank::Seven.of(Suit::Heart), Rank::Three.of(Suit::Diamond), Rank::Five.of(Suit::Spade)], vec![], Some(trick));
    should_play(&st, Rank::Seven.of(Suit::Heart));
}

#[test]
fn should_play_heart_2() {
    let trick = deal(1, &[("West", Rank::Five.of(Suit::Diamond))], None);
    let st = status(points(), &[Rank::Two.of(Suit::Heart), Rank::Four.of(Suit::Heart)], vec![], Some(trick));
    should_play(&st, Rank::Four.of(Suit::Heart));
}

#[test]
fn should_play_high_rank_1() {
    let trick = deal(1, &[("West", Rank::Five.of(Suit::Diamond)), ("North", Rank::Eight.of(Suit::Diamond)), ("East", Rank::Ten.of(Suit::Diamond))], None);
    let st = status(points(), &[Rank::Three.of(Suit::Diamond), Rank::King.of(Suit::Diamond), Rank::Four.of(Suit::Heart), Rank::Five.of(Suit::Heart), Rank::Six.of(Suit::Heart)], vec![], Some(trick));
    should_play(&st, Rank::King.of(Suit::Diamond));
}

#[test]
fn should_play_high_rank_2() {
    let d1 = deal(1, &[("West", Rank::Nine.of(Suit::Club)), ("North", Rank::Queen.of(Suit::Spade)), ("East", Rank::Three.of(Suit::Club)), (ME, Rank::Ten.of(Suit::Club))], Some(ME));
    let st = status(points(), &[Rank::Ace.of(Suit::Spade), Rank::Five.of(Suit::Spade)], vec![d1], None);
    should_play(&st, Rank::Ace.of(Suit::Spade));
}

#[test]
fn should_not_crash_during_card_play() {
    let trick = deal(1, &[("West", Rank::King.of(Suit::Spade)), ("North", Rank::Three.of(Suit::Spade))], None);
    let st = status(points(), &[Rank::Five.of(Suit::Heart), Rank::Ten.of(Suit::Heart)], vec![], Some(trick));
    should_play(&st, Rank::Ten.of(Suit::Heart));
}

#[test]
fn should_play_high_negative_points_card_1() {
    let mut rp = points();
    rp.set_points(Rank::Jack.of(Suit::Diamond), -10);
    let trick = deal(1, &[("West", Rank::Five.of(Suit::Diamond)), ("North", Rank::Jack.of(Suit::Diamond)), ("East", Rank::Nine.of(Suit::Diamond))], None);
    let st = status(rp, &[Rank::Three.of(Suit::Diamond), Rank::Ace.of(Suit::Diamond), Rank::Seven.of(Suit::Heart), Rank::Eight.of(Suit::Heart), Rank::Nine.of(Suit::Heart)], vec![], Some(trick));
    should_play(&st, Rank::Ace.of(Suit::Diamond));
}

fn shooter_threat(taker: &str) -> GameStatus {
    let d1 = deal(1, &[("West", Rank::Two.of(Suit::Spade)), ("North", Rank::Ace.of(Suit::Spade)), ("East", Rank::Queen.of(Suit::Spade)), (ME, Rank::Three.of(Suit::Spade))], Some(taker));
    let d2 = deal(2, &[("West", Rank::Two.of(Suit::Heart)), ("North", Rank::Ace.of(Suit::Heart)), ("East", Rank::Three.of(Suit::Heart)), (ME, Rank::Four.of(Suit::Heart))], Some(taker));
    let d3 = deal(3, &[("West", Rank::Five.of(Suit::Heart)), ("North", Rank::King.of(Suit::Heart)), ("East", Rank::Six.of(Suit::Heart)), (ME, Rank::Seven.of(Suit::Heart))], Some(taker));
    let trick = deal(4, &[("West", Rank::Ten.of(Suit::Club)), ("North", Rank::Queen.of(Suit::Club)), ("East", Rank::Eight.of(Suit::Heart))], None);
    status(points(), &[Rank::Ace.of(Suit::Club), Rank::Four.of(Suit::Club), Rank::Eight.of(Suit::Diamond), Rank::Nine.of(Suit::Diamond), Rank::Ten.of(Suit::Diamond)], vec![d1, d2, d3], Some(trick))
}

#[test]
fn should_try_to_win_deal_1() {
    let d1 = deal(1, &[("West", Rank::Two.of(Suit::Spade)), ("North", Rank::Ace.of(Suit::Spade)), ("East", Rank::Queen.of(Suit::Spade)), (ME, Rank::Three.of(Suit::Spade))], Some("North"));
    let d2 = deal(2, &[("West", Rank::Two.of(Suit::Heart)), ("North", Rank::Ace.of(Suit::Heart)), ("East", Rank::Three.of(Suit::Heart)), (ME, Rank::Four.of(Suit::Heart))], Some("North"));
    let d3 = deal(3, &[("West", Rank::Five.of(Suit::Heart)), ("North", Rank::King.of(Suit::Heart)), ("East", Rank::Six.of(Suit::Heart)), (ME, Rank::Seven.of(Suit::Heart))], Some("North"));
    let trick = deal(4, &[("West", Rank::Three.of(Suit::Club)), ("North", Rank::Ten.of(Suit::Club)), ("East", Rank::Eight.of(Suit::Heart))], None);
    let hand = [
        Rank::Ace.of(Suit::Club), Rank::Queen.of(Suit::Club), Rank::Four.of(Suit::Club),
        Rank::Eight.of(Suit::Diamond), Rank::Nine.of(Suit::Diamond), Rank::Ten.of(Suit::Diamond),
    ];
    let st = status(points(), &hand, vec![d1, d2, d3], Some(trick));
    should_play(&st, Rank::Queen.of(Suit::Club));
}

#[test]
fn own_captured_points_also_turn_play_to_winning() {
    should_play(&shooter_threat(ME), Rank::Ace.of(Suit::Club));
}

#[test]
fn without_a_shooter_the_point_is_ducked() {
    let trick = deal(4, &[("West", Rank::Ten.of(Suit::Club)), ("North", Rank::Queen.of(Suit::Club)), ("East", Rank::Eight.of(Suit::Heart))], None);
    let st = status(points(), &[Rank::Ace.of(Suit::Club), Rank::Four.of(Suit::Club), Rank::Eight.of(Suit::Diamond), Rank::Nine.of(Suit::Diamond), Rank::Ten.of(Suit::Diamond)], vec![], Some(trick));
    should_play(&st, Rank::Four.of(Suit::Club));
}

#[test]
fn opening_card_is_played_whatever_else_is_held() {
    let trick = deal(1, &[("West", Rank::Five.of(Suit::Diamond))], None);
    let st = status(points(), &[Rank::Ace.of(Suit::Diamond), Rank::Two.of(Suit::Club), Rank::Queen.of(Suit::Spade)], vec![], Some(trick));
    should_play(&st, Rank::Two.of(Suit::Club));
}

#[test]
fn play_follows_the_led_suit() {
    let st = last_to_play_clubs();
    let card = DefensiveCardStrategy::new(PlayerName::new(ME)).play_card(&st);
    assert_eq!(Suit::Club, card.suit);
    assert!(st.my_current_hand.contains(&card));
}

#[test]
fn same_snapshot_same_decision() {
    let st = diamond_run();
    let mut first = DefensiveCardStrategy::new(PlayerName::new(ME));
    let mut second = DefensiveCardStrategy::new(PlayerName::new(ME));
    assert_eq!(first.play_card(&st), second.play_card(&st));
    assert_eq!(first.is_shooting_the_moon(), second.is_shooting_the_moon());
    assert_eq!(first.pass_cards(&st), second.pass_cards(&st));
}

#[test]
fn score_of_a_winning_card_with_a_point_in_the_trick() {
    let st = shooter_threat("North");
    let analysis = Analysis::new(&st);
    let score = score_card(false, &st, &analysis, &Rank::Ace.of(Suit::Club));
    assert_eq!(CardScore { definite_points: 1000, potential_points: 1000, later_potential_points: -4000, rank: -14 }, score);
    assert_eq!(CardScore { definite_points: -1000, potential_points: -1000, later_potential_points: 4000, rank: -14 }, score.invert());
    let losing = score_card(false, &st, &analysis, &Rank::Four.of(Suit::Club));
    assert_eq!(0, losing.definite_points);
    assert_eq!(0, losing.potential_points);
}

#[test]
fn score_of_a_pointless_last_play() {
    let st = last_to_play_clubs();
    let analysis = Analysis::new(&st);
    assert_eq!(
        CardScore { definite_points: 0, potential_points: 0, later_potential_points: -20125, rank: -13 },
        score_card(false, &st, &analysis, &Rank::King.of(Suit::Club))
    );
    assert_eq!(
        CardScore { definite_points: 0, potential_points: 0, later_potential_points: -5750, rank: -7 },
        score_card(false, &st, &analysis, &Rank::Seven.of(Suit::Club))
    );
}

#[test]
fn bonus_card_ranks_are_not_negated() {
    let mut rp = points();
    rp.set_points(Rank::Jack.of(Suit::Diamond), -10);
    let st = status(rp, &[Rank::Jack.of(Suit::Diamond), Rank::Three.of(Suit::Club)], vec![], None);
    let analysis = Analysis::new(&st);
    assert_eq!(11, score_card(false, &st, &analysis, &Rank::Jack.of(Suit::Diamond)).rank);
    assert_eq!(-3, score_card(false, &st, &analysis, &Rank::Three.of(Suit::Club)).rank);
}

fn passing_hand() -> GameStatus {
    let hand = [
        Rank::Queen.of(Suit::Spade), Rank::Ace.of(Suit::Heart), Rank::King.of(Suit::Heart), Rank::Two.of(Suit::Club), Rank::Three.of(Suit::Club), Rank::Four.of(Suit::Club), Rank::Five.of(Suit::Club),
        Rank::Two.of(Suit::Diamond), Rank::Three.of(Suit::Diamond), Rank::Four.of(Suit::Diamond), Rank::Five.of(Suit::Diamond), Rank::Six.of(Suit::Diamond), Rank::Seven.of(Suit::Diamond),
    ];
    let mut st = status(points(), &hand, vec![], None);
    st.game_state = HeartsGameInstanceState::Passing;
    st
}

#[test]
fn passes_the_most_dangerous_cards() {
    let st = passing_hand();
    let mut engine = DefensiveCardStrategy::new(PlayerName::new(ME));
    let passed = engine.pass_cards(&st);
    assert_eq!(vec![Rank::Queen.of(Suit::Spade), Rank::Ace.of(Suit::Heart), Rank::King.of(Suit::Heart)], passed);
    assert!(!engine.is_shooting_the_moon());
}

#[test]
fn passes_as_many_cards_as_the_round_asks() {
    let mut st = passing_hand();
    st.round_parameters.number_of_cards_to_be_passed = 5;
    let passed = DefensiveCardStrategy::new(PlayerName::new(ME)).pass_cards(&st);
    assert_eq!(5, passed.len());
    for k in 0..passed.len() {
        assert!(st.my_initial_hand.contains(&passed[k]));
        for j in 0..k {
            assert_ne!(passed[j], passed[k]);
        }
    }
}

#[test]
fn passes_fewer_when_the_hand_runs_out() {
    let mut st = status(points(), &[Rank::Two.of(Suit::Diamond), Rank::Nine.of(Suit::Spade)], vec![], None);
    st.round_parameters.number_of_cards_to_be_passed = 3;
    let passed = DefensiveCardStrategy::new(PlayerName::new(ME)).pass_cards(&st);
    assert_eq!(2, passed.len());
}

#[test]
fn void_suits_only_grow_with_more_tricks() {
    let d1 = deal(1, &[("West", Rank::Two.of(Suit::Spade)), ("North", Rank::Five.of(Suit::Spade)), ("East", Rank::Three.of(Suit::Spade))], Some("North"));
    let d2 = deal(2, &[("North", Rank::Two.of(Suit::Diamond)), ("West", Rank::Queen.of(Suit::Heart)), ("East", Rank::Three.of(Suit::Diamond))], Some("East"));
    let west = PlayerName::new("West");
    let early = player_void_suits(&vec![d1.clone()], &west);
    assert!(!early.contains(Suit::Diamond));
    let later = player_void_suits(&vec![d1, d2], &west);
    assert!(later.contains(Suit::Diamond));
    assert!(!later.contains(Suit::Spade));
}

#[test]
fn simple_strategy_plays_lowest_of_led_suit() {
    let trick = deal(1, &[("West", Rank::Five.of(Suit::Diamond))], None);
    let st = status(points(), &[Rank::Ace.of(Suit::Diamond), Rank::Nine.of(Suit::Diamond), Rank::Queen.of(Suit::Spade)], vec![], Some(trick));
    let mut simple = SimpleCardStrategy::new(PlayerName::new(ME));
    assert_eq!(Rank::Nine.of(Suit::Diamond), simple.play_card(&st));
    let off = deal(1, &[("West", Rank::Five.of(Suit::Club))], None);
    let st = status(points(), &[Rank::Ace.of(Suit::Diamond), Rank::Nine.of(Suit::Diamond), Rank::Queen.of(Suit::Spade)], vec![], Some(off));
    assert_eq!(Rank::Queen.of(Suit::Spade), simple.play_card(&st));
    assert_eq!(vec![Rank::Nine.of(Suit::Diamond), Rank::Ace.of(Suit::Diamond), Rank::Queen.of(Suit::Spade)], simple.pass_cards(&st));
}

#[test]
fn strategies_work_through_the_trait() {
    let st = last_to_play_clubs();
    let mut strategies: Vec<Box<dyn CardStrategy>> = vec![
        Box::new(DefensiveCardStrategy::new(PlayerName::new(ME))),
        Box::new(SimpleCardStrategy::new(PlayerName::new(ME))),
    ];
    for strategy in strategies.iter_mut() {
        let card = strategy.play_card(&st);
        assert!(st.my_current_hand.contains(&card));
        assert_eq!(ME, strategy.player_name().as_str());
    }
}

#[test]
fn penalty_strategy_ducks_and_dumps() {
    let trick = deal(1, &[("West", Rank::Five.of(Suit::Diamond)), ("North", Rank::Eight.of(Suit::Diamond))], None);
    let st = status(points(), &[Rank::Three.of(Suit::Diamond), Rank::King.of(Suit::Diamond), Rank::Queen.of(Suit::Heart)], vec![], Some(trick));
    assert_eq!(Rank::Three.of(Suit::Diamond), MyCardStrategy.play_card(&st));
    let trick = deal(1, &[("West", Rank::Five.of(Suit::Diamond))], None);
    let st = status(points(), &[Rank::Queen.of(Suit::Spade), Rank::Two.of(Suit::Heart), Rank::Nine.of(Suit::Club)], vec![], Some(trick));
    assert_eq!(Rank::Queen.of(Suit::Spade), MyCardStrategy.play_card(&st));
    assert_eq!(vec![Rank::Nine.of(Suit::Club), Rank::Two.of(Suit::Heart), Rank::Queen.of(Suit::Spade)], MyCardStrategy.pass_cards(&st));
}

#[test]
fn one_participant_over_the_threshold_is_a_shooter_even_when_others_hold_points() {
    let d1 = deal(1, &[("West", Rank::Two.of(Suit::Spade)), ("North", Rank::Ace.of(Suit::Spade)), ("East", Rank::Queen.of(Suit::Spade)), (ME, Rank::Three.of(Suit::Spade))], Some("North"));
    let d2 = deal(2, &[("West", Rank::Two.of(Suit::Heart)), ("North", Rank::Ace.of(Suit::Heart)), ("East", Rank::Three.of(Suit::Heart)), (ME, Rank::Four.of(Suit::Heart))], Some("North"));
    let d3 = deal(3, &[("West", Rank::Five.of(Suit::Heart)), ("North", Rank::King.of(Suit::Heart)), ("East", Rank::Six.of(Suit::Heart)), (ME, Rank::Seven.of(Suit::Heart))], Some("North"));
    let d4 = deal(4, &[("West", Rank::Queen.of(Suit::Diamond)), ("North", Rank::Three.of(Suit::Diamond)), ("East", Rank::Four.of(Suit::Diamond)), (ME, Rank::Nine.of(Suit::Heart))], Some("West"));
    let trick = deal(5, &[("West", Rank::Ten.of(Suit::Club)), ("North", Rank::Queen.of(Suit::Club)), ("East", Rank::Eight.of(Suit::Heart))], None);
    let hand = [Rank::Ace.of(Suit::Club), Rank::Four.of(Suit::Club), Rank::Eight.of(Suit::Spade), Rank::Nine.of(Suit::Spade), Rank::Ten.of(Suit::Spade)];
    let st = status(points(), &hand, vec![d1, d2, d3, d4], Some(trick));
    should_play(&st, Rank::Ace.of(Suit::Club));
}

#[test]
fn chance_of_win_counts_only_unseen_cards() {
    // Only the six of spades carries points. The one unseen spade (the king)
    // outranks it, so it cannot expect to win, whatever lower spade was
    // already played into the trick.
    let mut rp = RoundParameters::new(1, 0, 0, 0, 0, 3);
    rp.set_points(Rank::Six.of(Suit::Spade), 2);
    let d1 = deal(1, &[
        ("West", Rank::Two.of(Suit::Spade)), ("North", Rank::Three.of(Suit::Spade)), ("East", Rank::Four.of(Suit::Spade)), (ME, Rank::Seven.of(Suit::Spade)),
    ], Some(ME));
    let d2 = deal(2, &[
        ("West", Rank::Eight.of(Suit::Spade)), ("North", Rank::Nine.of(Suit::Spade)), ("East", Rank::Ten.of(Suit::Spade)), (ME, Rank::Jack.of(Suit::Spade)),
    ], Some(ME));
    let trick = deal(3, &[("West", Rank::Five.of(Suit::Spade))], None);
    let hand = [Rank::Six.of(Suit::Spade), Rank::Queen.of(Suit::Spade), Rank::Ace.of(Suit::Spade)];
    let st = status(rp, &hand, vec![d1, d2], Some(trick));
    let analysis = Analysis::new(&st);
    let score = score_card(false, &st, &analysis, &Rank::Six.of(Suit::Spade));
    assert_eq!(0, score.definite_points);
    assert_eq!(0, score.potential_points);
}
