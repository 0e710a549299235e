//! The game's wire format as plain values, and its decoding into the
//! snapshot model (rejecting unknown suit, rank and state tokens) and encoding
//! back.
use vstd::prelude::*;
use crate::card::{Card, Rank, Suit};
use crate::card_set::CardSet;
use crate::codec::{parse_rank, parse_suit, rank_token, suit_token, lemma_rank_token_round_trip, lemma_suit_token_round_trip};
use crate::deal::{Deal, DealCard};
use crate::error::{parsing_message, Error};
use crate::game_status::{
    game_instance_token, hearts_game_token, round_token, CardPoints, GameInstanceState,
    GameParticipant, GameStatus, HeartsGameInstanceState, RoundParameters, RoundState,
};
use crate::player::PlayerName;

verus! {

/// A card on the wire: suit token, rank number and rank token.
#[derive(Clone, Debug, PartialEq)]
pub struct CardDto {
    pub suit: String,
    pub number: u32,
    pub symbol: String,
}

/// The card that a wire card names, if its suit and rank tokens are known.
pub open spec fn card_of(dto: CardDto) -> Option<Card> {
    match (parse_suit(dto.suit@), parse_rank(dto.symbol@)) {
        (Some(s), Some(k)) => Some(Card { suit: s, rank: k }),
        _ => None,
    }
}

impl Card {
    /// Decodes a wire card; a parsing error names the first bad token.
    pub fn try_from(dto: CardDto) -> (r: Result<Card, Error>)
        ensures
            card_of(dto) matches Some(c) ==> (r matches Ok(x) && x == c),
            card_of(dto) is None ==> r is Err,
            parse_suit(dto.suit@) is None ==> (r matches Err(Error::Parsing(m)) && m@
                == parsing_message("Suit"@, dto.suit@)),
            parse_suit(dto.suit@) is Some && parse_rank(dto.symbol@) is None ==> (r matches Err(
                Error::Parsing(m),
            ) && m@ == parsing_message("Rank"@, dto.symbol@)),
    {
        decode_card(&dto)
    }
}

/// Decodes a wire card; a parsing error names the first bad token.
pub fn decode_card(dto: &CardDto) -> (r: Result<Card, Error>)
        ensures
            card_of(*dto) matches Some(c) ==> (r matches Ok(x) && x == c),
            card_of(*dto) is None ==> r is Err,
            parse_suit(dto.suit@) is None ==> (r matches Err(Error::Parsing(m)) && m@
                == parsing_message("Suit"@, dto.suit@)),
            parse_suit(dto.suit@) is Some && parse_rank(dto.symbol@) is None ==> (r matches Err(
                Error::Parsing(m),
            ) && m@ == parsing_message("Rank"@, dto.symbol@)),
    {
        let suit = match Suit::from_str(dto.suit.as_str()) {
            Ok(s) => s,
            Err(e) => return Err(e),
        };
        let rank = match Rank::from_str(dto.symbol.as_str()) {
            Ok(k) => k,
            Err(e) => return Err(e),
        };
        Ok(Card::new(suit, rank))
}

impl CardDto {
    /// Encodes a card.
    pub fn from(card: &Card) -> (r: CardDto)
        ensures
            r.suit@ == suit_token(card.suit),
            r.number as int == card.rank.value(),
            r.symbol@ == rank_token(card.rank),
            card_of(r) == Some(*card),
    {
        proof {
            lemma_suit_token_round_trip(card.suit);
            lemma_rank_token_round_trip(card.rank);
        }
        CardDto {
            suit: card.suit.name().to_owned(),
            number: card.rank.number(),
            symbol: card.rank.name().to_owned(),
        }
    }
}

/// Every wire card of `v` names a known card.
pub open spec fn all_cards_known(v: Seq<CardDto>) -> bool {
    forall|j: int| 0 <= j < v.len() ==> (#[trigger] card_of(v[j])) is Some
}

/// The cards that the wire cards of `v` name.
pub open spec fn cards_named(v: Seq<CardDto>) -> Set<Card> {
    Set::new(|c: Card| exists|j: int| 0 <= j < v.len() && #[trigger] card_of(v[j]) == Some(c))
}

/// Decodes a list of wire cards into a set of cards.
pub fn decode_cards(v: Vec<CardDto>) -> (r: Result<CardSet, Error>)
    ensures
        r is Ok <==> all_cards_known(v@),
        r matches Ok(set) ==> set.wf() && set@ == cards_named(v@),
{
    let mut set = CardSet::new();
    let mut j: usize = 0;
    while j < v.len()
        invariant
            set.wf(),
            j <= v@.len(),
            forall|j2: int| 0 <= j2 < j ==> (#[trigger] card_of(v@[j2])) is Some,
            set@ == Set::new(|c: Card| exists|j2: int| 0 <= j2 < j && #[trigger] card_of(v@[j2]) == Some(c)),
        decreases v@.len() - j,
    {
        match decode_card(&v[j]) {
            Ok(c) => {
                let ghost before = set@;
                set.insert(c);
                assert(set@ =~= Set::new(|d: Card| exists|j2: int| 0 <= j2 < j + 1 && #[trigger] card_of(v@[j2]) == Some(d))) by {
                    assert forall|d: Card| (exists|j2: int| 0 <= j2 < j + 1 && #[trigger] card_of(v@[j2]) == Some(d)) <==> (before.contains(d) || d == c) by {
                        if d == c {
                            assert(card_of(v@[j as int]) == Some(d));
                        }
                    }
                }
            },
            Err(e) => {
                return Err(e);
            },
        }
        j = j + 1;
    }
    assert(set@ =~= cards_named(v@));
    Ok(set)
}

/// Encodes a set of cards, in the canonical order.
pub fn encode_cards(set: &CardSet) -> (r: Vec<CardDto>)
    requires
        set.wf(),
    ensures
        all_cards_known(r@),
        cards_named(r@) == set@,
{
    let cards = set.to_vec();
    let mut r: Vec<CardDto> = Vec::new();
    let mut j: usize = 0;
    while j < cards.len()
        invariant
            j <= cards@.len(),
            r@.len() == j,
            forall|j2: int| 0 <= j2 < j ==> card_of(#[trigger] r@[j2]) == Some(cards@[j2]),
        decreases cards@.len() - j,
    {
        r.push(CardDto::from(&cards[j]));
        j = j + 1;
    }
    assert forall|c: Card| #[trigger] cards_named(r@).contains(c) <==> set@.contains(c) by {
        if set@.contains(c) {
            assert(cards@.contains(c));
            let k = choose|k: int| 0 <= k < cards@.len() && cards@[k] == c;
            assert(card_of(r@[k]) == Some(c));
        }
        if cards_named(r@).contains(c) {
            let k = choose|k: int| 0 <= k < r@.len() && #[trigger] card_of(r@[k]) == Some(c);
            assert(cards@.contains(cards@[k]));
        }
    }
    assert(cards_named(r@) =~= set@);
    r
}

/// One play on the wire.
#[derive(Clone, Debug)]
pub struct DealCardDto {
    pub team_name: PlayerName,
    pub card: CardDto,
}

/// A trick on the wire. The suit token is present even before a card is led.
#[derive(Clone, Debug)]
pub struct DealDto {
    pub deal_number: u32,
    pub initiator: Option<PlayerName>,
    pub suit_type: String,
    pub deal_cards: Vec<DealCardDto>,
    pub deal_winner: Option<PlayerName>,
}

impl DealCard {
    pub fn try_from(dto: DealCardDto) -> (r: Result<DealCard, Error>)
        ensures
            r is Ok <==> card_of(dto.card) is Some,
            r matches Ok(p) ==> p.player_name@ == dto.team_name@ && Some(p.card) == card_of(dto.card),
    {
        match decode_card(&dto.card) {
            Ok(card) => Ok(DealCard { player_name: dto.team_name, card }),
            Err(e) => Err(e),
        }
    }
}

impl DealCardDto {
    pub fn from(play: &DealCard) -> (r: DealCardDto)
        ensures
            r.team_name@ == play.player_name@,
            card_of(r.card) == Some(play.card),
    {
        DealCardDto { team_name: play.player_name.duplicate(), card: CardDto::from(&play.card) }
    }
}

/// Every play of a wire trick names a known card.
pub open spec fn plays_known(v: Seq<DealCardDto>) -> bool {
    forall|j: int| 0 <= j < v.len() ==> (#[trigger] card_of(v[j].card)) is Some
}

/// Both names are absent, or both are present with the same characters.
pub open spec fn same_name(a: Option<PlayerName>, b: Option<PlayerName>) -> bool {
    match (a, b) {
        (Some(x), Some(y)) => x@ == y@,
        (None, None) => true,
        _ => false,
    }
}

/// The wire trick names known cards and a known suit.
pub open spec fn deal_known(dto: DealDto) -> bool {
    plays_known(dto.deal_cards@) && parse_suit(dto.suit_type@) is Some
}

/// `d` is the decoding of wire trick `dto`.
pub open spec fn deal_decodes(dto: DealDto, d: Deal) -> bool {
    &&& d.deal_number == dto.deal_number
    &&& same_name(d.initiator, dto.initiator)
    &&& same_name(d.deal_winner, dto.deal_winner)
    &&& d.deal_cards@.len() == dto.deal_cards@.len()
    &&& forall|j: int|
        0 <= j < d.deal_cards@.len() ==> (#[trigger] d.deal_cards@[j]).player_name@
            == dto.deal_cards@[j].team_name@ && Some(d.deal_cards@[j].card) == card_of(
            dto.deal_cards@[j].card,
        )
    &&& d.suit == if dto.deal_cards@.len() == 0 {
        None
    } else {
        parse_suit(dto.suit_type@)
    }
}

impl Deal {
    /// Decodes a wire trick; its led suit is kept only once a card has been played.
    pub fn try_from(dto: DealDto) -> (r: Result<Deal, Error>)
        ensures
            r is Ok <==> deal_known(dto),
            r matches Ok(d) ==> deal_decodes(dto, d),
    {
        decode_deal(&dto)
    }
}

/// Decodes a wire trick; its led suit is kept only once a card has been played.
pub fn decode_deal(dto: &DealDto) -> (r: Result<Deal, Error>)
    ensures
        r is Ok <==> deal_known(*dto),
        r matches Ok(d) ==> deal_decodes(*dto, d),
{
    let mut plays: Vec<DealCard> = Vec::new();
    let mut j: usize = 0;
    while j < dto.deal_cards.len()
        invariant
            j <= dto.deal_cards@.len(),
            plays@.len() == j,
            forall|j2: int| 0 <= j2 < j ==> (#[trigger] card_of(dto.deal_cards@[j2].card)) is Some,
            forall|j2: int|
                0 <= j2 < j ==> (#[trigger] plays@[j2]).player_name@ == dto.deal_cards@[j2].team_name@
                    && Some(plays@[j2].card) == card_of(dto.deal_cards@[j2].card),
        decreases dto.deal_cards@.len() - j,
    {
        match decode_card(&dto.deal_cards[j].card) {
            Ok(card) => plays.push(DealCard { player_name: dto.deal_cards[j].team_name.duplicate(), card }),
            Err(e) => return Err(e),
        }
        j = j + 1;
    }
    let suit = match Suit::from_str(dto.suit_type.as_str()) {
        Ok(s) => s,
        Err(e) => return Err(e),
    };
    let led = if plays.len() == 0 {
        None
    } else {
        Some(suit)
    };
    Ok(Deal {
        deal_number: dto.deal_number,
        initiator: duplicate_name(&dto.initiator),
        suit: led,
        deal_cards: plays,
        deal_winner: duplicate_name(&dto.deal_winner),
    })
}

fn duplicate_name(name: &Option<PlayerName>) -> (r: Option<PlayerName>)
    ensures
        r is Some <==> name is Some,
        r matches Some(n) ==> name matches Some(m) && n@ == m@,
{
    match name {
        Some(n) => Some(n.duplicate()),
        None => None,
    }
}

impl DealDto {
    /// Encodes a trick; a trick with no led suit carries the Club token.
    pub fn from(deal: &Deal) -> (r: DealDto)
        ensures
            r.deal_number == deal.deal_number,
            r.suit_type@ == suit_token(
                match deal.suit {
                    Some(s) => s,
                    None => Suit::Club,
                },
            ),
            r.deal_cards@.len() == deal.deal_cards@.len(),
            forall|j: int|
                0 <= j < r.deal_cards@.len() ==> (#[trigger] r.deal_cards@[j]).team_name@
                    == deal.deal_cards@[j].player_name@ && card_of(r.deal_cards@[j].card) == Some(
                    deal.deal_cards@[j].card,
                ),
            r.initiator is Some <==> deal.initiator is Some,
            r.deal_winner is Some <==> deal.deal_winner is Some,
            deal_known(r),
    {
        let mut plays: Vec<DealCardDto> = Vec::new();
        let mut j: usize = 0;
        while j < deal.deal_cards.len()
            invariant
                j <= deal.deal_cards@.len(),
                plays@.len() == j,
                forall|j2: int|
                    0 <= j2 < j ==> (#[trigger] plays@[j2]).team_name@ == deal.deal_cards@[j2].player_name@
                        && card_of(plays@[j2].card) == Some(deal.deal_cards@[j2].card),
            decreases deal.deal_cards@.len() - j,
        {
            plays.push(DealCardDto::from(&deal.deal_cards[j]));
            j = j + 1;
        }
        let suit = match deal.suit {
            Some(s) => s,
            None => Suit::Club,
        };
        proof {
            lemma_suit_token_round_trip(suit);
        }
        DealDto {
            deal_number: deal.deal_number,
            initiator: duplicate_name(&deal.initiator),
            suit_type: suit.name().to_owned(),
            deal_cards: plays,
            deal_winner: duplicate_name(&deal.deal_winner),
        }
    }
}

/// The points of one card on the wire.
#[derive(Clone, Debug)]
pub struct CardPointsDto {
    pub card: CardDto,
    pub points: i32,
}

/// Round parameters on the wire; the point table lists only cards with points.
#[derive(Clone, Debug)]
pub struct RoundParametersDto {
    pub round_id: u32,
    pub initiation_phase_in_seconds: u32,
    pub passing_phase_in_seconds: u32,
    pub dealing_phase_in_seconds: u32,
    pub finishing_phase_in_seconds: u32,
    pub number_of_cards_to_be_passed: u32,
    pub card_points: Vec<CardPointsDto>,
}

/// The points that the first `n` entries give card `c`: those of its last
/// entry, or 0 when it has none.
pub open spec fn points_entry(v: Seq<CardPointsDto>, n: int, c: Card) -> int
    decreases n,
{
    if n <= 0 {
        0
    } else if card_of(v[n - 1].card) == Some(c) {
        v[n - 1].points as int
    } else {
        points_entry(v, n - 1, c)
    }
}

/// Every entry of a wire point table names a known card.
pub open spec fn entries_known(v: Seq<CardPointsDto>) -> bool {
    forall|j: int| 0 <= j < v.len() ==> (#[trigger] card_of(v[j].card)) is Some
}

impl CardPoints {
    /// Decodes one entry of a wire point table.
    pub fn try_from(dto: &CardPointsDto) -> (r: Result<CardPoints, Error>)
        ensures
            r is Ok <==> card_of(dto.card) is Some,
            r matches Ok(p) ==> Some(p.card) == card_of(dto.card) && p.points == dto.points,
    {
        match decode_card(&dto.card) {
            Ok(card) => Ok(CardPoints::new(card, dto.points)),
            Err(e) => Err(e),
        }
    }
}

impl RoundParameters {
    /// Decodes wire round parameters; a card listed twice keeps its last entry.
    pub fn try_from(dto: &RoundParametersDto) -> (r: Result<RoundParameters, Error>)
        ensures
            r is Ok <==> entries_known(dto.card_points@),
            r matches Ok(rp) ==> {
                &&& rp.wf()
                &&& rp.round_id == dto.round_id
                &&& rp.initiation_phase_in_seconds == dto.initiation_phase_in_seconds
                &&& rp.passing_phase_in_seconds == dto.passing_phase_in_seconds
                &&& rp.dealing_phase_in_seconds == dto.dealing_phase_in_seconds
                &&& rp.finishing_phase_in_seconds == dto.finishing_phase_in_seconds
                &&& rp.number_of_cards_to_be_passed == dto.number_of_cards_to_be_passed
                &&& forall|c: Card| rp.points_of(c) == points_entry(dto.card_points@, dto.card_points@.len() as int, c)
            },
    {
        let mut rp = RoundParameters::new(
            dto.round_id,
            dto.initiation_phase_in_seconds,
            dto.passing_phase_in_seconds,
            dto.dealing_phase_in_seconds,
            dto.finishing_phase_in_seconds,
            dto.number_of_cards_to_be_passed,
        );
        let mut j: usize = 0;
        while j < dto.card_points.len()
            invariant
                rp.wf(),
                j <= dto.card_points@.len(),
                rp.round_id == dto.round_id,
                rp.initiation_phase_in_seconds == dto.initiation_phase_in_seconds,
                rp.passing_phase_in_seconds == dto.passing_phase_in_seconds,
                rp.dealing_phase_in_seconds == dto.dealing_phase_in_seconds,
                rp.finishing_phase_in_seconds == dto.finishing_phase_in_seconds,
                rp.number_of_cards_to_be_passed == dto.number_of_cards_to_be_passed,
                forall|j2: int| 0 <= j2 < j ==> (#[trigger] card_of(dto.card_points@[j2].card)) is Some,
                forall|c: Card| rp.points_of(c) == points_entry(dto.card_points@, j as int, c),
            decreases dto.card_points@.len() - j,
        {
            match CardPoints::try_from(&dto.card_points[j]) {
                Ok(entry) => rp.set_points(entry.card, entry.points),
                Err(e) => return Err(e),
            }
            j = j + 1;
        }
        Ok(rp)
    }
}

impl RoundParametersDto {
    /// Encodes round parameters, listing each card that carries points once.
    pub fn from(rp: &RoundParameters) -> (r: RoundParametersDto)
        requires
            rp.wf(),
        ensures
            r.round_id == rp.round_id,
            r.initiation_phase_in_seconds == rp.initiation_phase_in_seconds,
            r.passing_phase_in_seconds == rp.passing_phase_in_seconds,
            r.dealing_phase_in_seconds == rp.dealing_phase_in_seconds,
            r.finishing_phase_in_seconds == rp.finishing_phase_in_seconds,
            r.number_of_cards_to_be_passed == rp.number_of_cards_to_be_passed,
            entries_known(r.card_points@),
            forall|c: Card| points_entry(r.card_points@, r.card_points@.len() as int, c) == rp.points_of(c),
    {
        let mut entries: Vec<CardPointsDto> = Vec::new();
        let mut i: usize = 0;
        while i < crate::card::DECK_SIZE
            invariant
                rp.wf(),
                i <= crate::card::DECK_SIZE,
                entries_known(entries@),
                forall|c: Card|
                    points_entry(entries@, entries@.len() as int, c) == if c.index() < i {
                        rp.points_of(c)
                    } else {
                        0
                    },
            decreases crate::card::DECK_SIZE - i,
        {
            let c = Card::at(i);
            let points = rp.points(&c);
            let ghost before = entries@;
            if points != 0 {
                entries.push(CardPointsDto { card: CardDto::from(&c), points });
                proof {
                    assert forall|d: Card| points_entry(entries@, entries@.len() as int, d) == if d.index() < i + 1 {
                        rp.points_of(d)
                    } else {
                        0
                    } by {
                        crate::card::lemma_index_injective(d, c);
                        assert(entries@.subrange(0, before.len() as int) =~= before);
                        lemma_points_entry_prefix(entries@, before, before.len() as int, d);
                    }
                }
            } else {
                proof {
                    assert forall|d: Card| points_entry(entries@, entries@.len() as int, d) == if d.index() < i + 1 {
                        rp.points_of(d)
                    } else {
                        0
                    } by {
                        crate::card::lemma_index_injective(d, c);
                    }
                }
            }
            i = i + 1;
        }
        proof {
            assert forall|c: Card| c.index() < 52 by {
                crate::card::lemma_card_index(c);
            }
        }
        RoundParametersDto {
            round_id: rp.round_id,
            initiation_phase_in_seconds: rp.initiation_phase_in_seconds,
            passing_phase_in_seconds: rp.passing_phase_in_seconds,
            dealing_phase_in_seconds: rp.dealing_phase_in_seconds,
            finishing_phase_in_seconds: rp.finishing_phase_in_seconds,
            number_of_cards_to_be_passed: rp.number_of_cards_to_be_passed,
            card_points: entries,
        }
    }
}

proof fn lemma_points_entry_prefix(v: Seq<CardPointsDto>, prefix: Seq<CardPointsDto>, n: int, c: Card)
    requires
        0 <= n <= prefix.len(),
        prefix.len() <= v.len(),
        forall|j: int| 0 <= j < prefix.len() ==> v[j] == prefix[j],
    ensures
        points_entry(v, n, c) == points_entry(prefix, n, c),
    decreases n,
{
    if n > 0 {
        lemma_points_entry_prefix(v, prefix, n - 1, c);
    }
}

/// A participant on the wire.
#[derive(Clone, Debug)]
pub struct GameParticipantDto {
    pub team_name: PlayerName,
    pub left_participant: PlayerName,
    pub number_of_cards_in_hand: u32,
    pub has_turn: bool,
    pub current_score: i32,
}

/// `p` is the decoding of wire participant `dto`.
pub open spec fn participant_decodes(dto: GameParticipantDto, p: GameParticipant) -> bool {
    &&& p.team_name@ == dto.team_name@
    &&& p.left_participant@ == dto.left_participant@
    &&& p.number_of_cards_in_hand == dto.number_of_cards_in_hand
    &&& p.has_turn == dto.has_turn
    &&& p.current_score == dto.current_score
}

impl GameParticipant {
    pub fn from(dto: &GameParticipantDto) -> (r: GameParticipant)
        ensures
            participant_decodes(*dto, r),
    {
        GameParticipant {
            team_name: dto.team_name.duplicate(),
            left_participant: dto.left_participant.duplicate(),
            number_of_cards_in_hand: dto.number_of_cards_in_hand,
            has_turn: dto.has_turn,
            current_score: dto.current_score,
        }
    }
}

impl GameParticipantDto {
    pub fn from(p: &GameParticipant) -> (r: GameParticipantDto)
        ensures
            r.team_name@ == p.team_name@,
            r.left_participant@ == p.left_participant@,
            r.number_of_cards_in_hand == p.number_of_cards_in_hand,
            r.has_turn == p.has_turn,
            r.current_score == p.current_score,
    {
        GameParticipantDto {
            team_name: p.team_name.duplicate(),
            left_participant: p.left_participant.duplicate(),
            number_of_cards_in_hand: p.number_of_cards_in_hand,
            has_turn: p.has_turn,
            current_score: p.current_score,
        }
    }
}

/// A game snapshot on the wire.
#[derive(Clone, Debug)]
pub struct GameStatusDto {
    pub current_game_id: String,
    pub current_game_state: String,
    pub current_round_id: u32,
    pub current_round_state: String,
    pub round_parameters: RoundParametersDto,
    pub my_game_state: String,
    pub my_game_state_description: String,
    pub my_game_participants: Vec<GameParticipantDto>,
    pub my_initial_hand: Vec<CardDto>,
    pub cards_passed_by_me: Vec<CardDto>,
    pub cards_passed_to_me: Vec<CardDto>,
    pub my_final_hand: Vec<CardDto>,
    pub my_current_hand: Vec<CardDto>,
    pub my_game_deals: Vec<DealDto>,
    pub my_in_progress_deal: Option<DealDto>,
    pub is_my_turn: bool,
}

/// Every state token, card and suit of a wire snapshot is known.
pub open spec fn status_known(dto: GameStatusDto) -> bool {
    &&& exists|x: GameInstanceState| game_instance_token(x) == dto.current_game_state@
    &&& exists|x: RoundState| round_token(x) == dto.current_round_state@
    &&& exists|x: HeartsGameInstanceState| hearts_game_token(x) == dto.my_game_state@
    &&& entries_known(dto.round_parameters.card_points@)
    &&& all_cards_known(dto.my_initial_hand@)
    &&& all_cards_known(dto.cards_passed_by_me@)
    &&& all_cards_known(dto.cards_passed_to_me@)
    &&& all_cards_known(dto.my_final_hand@)
    &&& all_cards_known(dto.my_current_hand@)
    &&& forall|k: int| 0 <= k < dto.my_game_deals@.len() ==> deal_known(#[trigger] dto.my_game_deals@[k])
    &&& (dto.my_in_progress_deal matches Some(d) ==> deal_known(d))
}

fn decode_deals(v: &Vec<DealDto>) -> (r: Result<Vec<Deal>, Error>)
    ensures
        r is Ok <==> forall|k: int| 0 <= k < v@.len() ==> deal_known(#[trigger] v@[k]),
        r matches Ok(deals) ==> deals@.len() == v@.len() && forall|k: int|
            0 <= k < v@.len() ==> deal_decodes(v@[k], #[trigger] deals@[k]),
{
    let mut deals: Vec<Deal> = Vec::new();
    let mut k: usize = 0;
    while k < v.len()
        invariant
            k <= v@.len(),
            deals@.len() == k,
            forall|k2: int| 0 <= k2 < k ==> deal_known(#[trigger] v@[k2]),
            forall|k2: int| 0 <= k2 < k ==> deal_decodes(v@[k2], #[trigger] deals@[k2]),
        decreases v@.len() - k,
    {
        match decode_deal(&v[k]) {
            Ok(d) => deals.push(d),
            Err(e) => return Err(e),
        }
        k = k + 1;
    }
    Ok(deals)
}

impl GameStatus {
    /// Decodes a wire snapshot; any unknown token is a parsing error.
    pub fn try_from(dto: GameStatusDto) -> (r: Result<GameStatus, Error>)
        ensures
            r is Ok <==> status_known(dto),
            r matches Ok(st) ==> {
                &&& st.wf()
                &&& st.current_game_id@ == dto.current_game_id@
                &&& game_instance_token(st.current_game_state) == dto.current_game_state@
                &&& st.current_round_id == dto.current_round_id
                &&& round_token(st.current_round_state) == dto.current_round_state@
                &&& hearts_game_token(st.game_state) == dto.my_game_state@
                &&& st.game_state_description@ == dto.my_game_state_description@
                &&& st.round_parameters.round_id == dto.round_parameters.round_id
                &&& st.round_parameters.initiation_phase_in_seconds == dto.round_parameters.initiation_phase_in_seconds
                &&& st.round_parameters.passing_phase_in_seconds == dto.round_parameters.passing_phase_in_seconds
                &&& st.round_parameters.dealing_phase_in_seconds == dto.round_parameters.dealing_phase_in_seconds
                &&& st.round_parameters.finishing_phase_in_seconds == dto.round_parameters.finishing_phase_in_seconds
                &&& st.round_parameters.number_of_cards_to_be_passed == dto.round_parameters.number_of_cards_to_be_passed
                &&& forall|c: Card| st.round_parameters.points_of(c) == points_entry(dto.round_parameters.card_points@, dto.round_parameters.card_points@.len() as int, c)
                &&& st.game_players@.len() == dto.my_game_participants@.len()
                &&& forall|i: int| 0 <= i < st.game_players@.len() ==> participant_decodes(dto.my_game_participants@[i], #[trigger] st.game_players@[i])
                &&& st.my_initial_hand@ == cards_named(dto.my_initial_hand@)
                &&& st.cards_passed_by_me@ == cards_named(dto.cards_passed_by_me@)
                &&& st.cards_passed_to_me@ == cards_named(dto.cards_passed_to_me@)
                &&& st.my_final_hand@ == cards_named(dto.my_final_hand@)
                &&& st.my_current_hand@ == cards_named(dto.my_current_hand@)
                &&& st.game_deals@.len() == dto.my_game_deals@.len()
                &&& forall|k: int| 0 <= k < st.game_deals@.len() ==> deal_decodes(dto.my_game_deals@[k], #[trigger] st.game_deals@[k])
                &&& (st.in_progress_deal is Some <==> dto.my_in_progress_deal is Some)
                &&& (st.in_progress_deal matches Some(d) ==> dto.my_in_progress_deal matches Some(w) && deal_decodes(w, d))
                &&& st.is_my_turn == dto.is_my_turn
            },
    {
        let in_progress = match &dto.my_in_progress_deal {
            Some(w) => match decode_deal(w) {
                Ok(d) => Ok(Some(d)),
                Err(e) => Err(e),
            },
            None => Ok(None),
        };
        let current_game_state = match GameInstanceState::from_str(dto.current_game_state.as_str()) {
            Ok(x) => x,
            Err(e) => return Err(e),
        };
        let current_round_state = match RoundState::from_str(dto.current_round_state.as_str()) {
            Ok(x) => x,
            Err(e) => return Err(e),
        };
        let round_parameters = match RoundParameters::try_from(&dto.round_parameters) {
            Ok(x) => x,
            Err(e) => return Err(e),
        };
        let game_state = match HeartsGameInstanceState::from_str(dto.my_game_state.as_str()) {
            Ok(x) => x,
            Err(e) => return Err(e),
        };
        let mut game_players: Vec<GameParticipant> = Vec::new();
        let mut i: usize = 0;
        while i < dto.my_game_participants.len()
            invariant
                i <= dto.my_game_participants@.len(),
                game_players@.len() == i,
                forall|i2: int| 0 <= i2 < i ==> participant_decodes(dto.my_game_participants@[i2], #[trigger] game_players@[i2]),
            decreases dto.my_game_participants@.len() - i,
        {
            game_players.push(GameParticipant::from(&dto.my_game_participants[i]));
            i = i + 1;
        }
        let my_initial_hand = match decode_cards(dto.my_initial_hand) {
            Ok(x) => x,
            Err(e) => return Err(e),
        };
        let cards_passed_by_me = match decode_cards(dto.cards_passed_by_me) {
            Ok(x) => x,
            Err(e) => return Err(e),
        };
        let cards_passed_to_me = match decode_cards(dto.cards_passed_to_me) {
            Ok(x) => x,
            Err(e) => return Err(e),
        };
        let my_final_hand = match decode_cards(dto.my_final_hand) {
            Ok(x) => x,
            Err(e) => return Err(e),
        };
        let my_current_hand = match decode_cards(dto.my_current_hand) {
            Ok(x) => x,
            Err(e) => return Err(e),
        };
        let game_deals = match decode_deals(&dto.my_game_deals) {
            Ok(x) => x,
            Err(e) => return Err(e),
        };
        let in_progress_deal = match in_progress {
            Ok(x) => x,
            Err(e) => return Err(e),
        };
        Ok(GameStatus {
            current_game_id: dto.current_game_id,
            current_game_state,
            current_round_id: dto.current_round_id,
            current_round_state,
            round_parameters,
            game_state,
            game_state_description: dto.my_game_state_description,
            game_players,
            my_initial_hand,
            cards_passed_by_me,
            cards_passed_to_me,
            my_final_hand,
            my_current_hand,
            game_deals,
            in_progress_deal,
            is_my_turn: dto.is_my_turn,
        })
    }
}

impl GameStatusDto {
    /// Encodes a snapshot.
    pub fn from(st: &GameStatus) -> (r: GameStatusDto)
        requires
            st.wf(),
        ensures
            r.current_game_id@ == st.current_game_id@,
            r.current_game_state@ == game_instance_token(st.current_game_state),
            r.current_round_id == st.current_round_id,
            r.current_round_state@ == round_token(st.current_round_state),
            r.my_game_state@ == hearts_game_token(st.game_state),
            r.my_game_participants@.len() == st.game_players@.len(),
            cards_named(r.my_initial_hand@) == st.my_initial_hand@,
            cards_named(r.cards_passed_by_me@) == st.cards_passed_by_me@,
            cards_named(r.cards_passed_to_me@) == st.cards_passed_to_me@,
            cards_named(r.my_final_hand@) == st.my_final_hand@,
            cards_named(r.my_current_hand@) == st.my_current_hand@,
            r.my_game_deals@.len() == st.game_deals@.len(),
            r.my_in_progress_deal is Some <==> st.in_progress_deal is Some,
            r.is_my_turn == st.is_my_turn,
            r.my_game_state_description@ == st.game_state_description@,
            r.round_parameters.round_id == st.round_parameters.round_id,
            r.round_parameters.initiation_phase_in_seconds == st.round_parameters.initiation_phase_in_seconds,
            r.round_parameters.passing_phase_in_seconds == st.round_parameters.passing_phase_in_seconds,
            r.round_parameters.dealing_phase_in_seconds == st.round_parameters.dealing_phase_in_seconds,
            r.round_parameters.finishing_phase_in_seconds == st.round_parameters.finishing_phase_in_seconds,
            r.round_parameters.number_of_cards_to_be_passed == st.round_parameters.number_of_cards_to_be_passed,
            forall|c: Card|
                points_entry(r.round_parameters.card_points@, r.round_parameters.card_points@.len() as int, c)
                    == st.round_parameters.points_of(c),
            forall|i: int|
                0 <= i < r.my_game_participants@.len() ==> participant_decodes(
                    #[trigger] r.my_game_participants@[i],
                    st.game_players@[i],
                ),
            status_known(r),
    {
        let mut participants: Vec<GameParticipantDto> = Vec::new();
        let mut i: usize = 0;
        while i < st.game_players.len()
            invariant
                i <= st.game_players@.len(),
                participants@.len() == i,
                forall|i2: int| 0 <= i2 < i ==> participant_decodes(#[trigger] participants@[i2], st.game_players@[i2]),
            decreases st.game_players@.len() - i,
        {
            participants.push(GameParticipantDto::from(&st.game_players[i]));
            i = i + 1;
        }
        let mut deals: Vec<DealDto> = Vec::new();
        let mut k: usize = 0;
        while k < st.game_deals.len()
            invariant
                k <= st.game_deals@.len(),
                deals@.len() == k,
                forall|k2: int| 0 <= k2 < k ==> deal_known(#[trigger] deals@[k2]),
            decreases st.game_deals@.len() - k,
        {
            deals.push(DealDto::from(&st.game_deals[k]));
            k = k + 1;
        }
        let in_progress = match &st.in_progress_deal {
            Some(d) => Some(DealDto::from(d)),
            None => None,
        };
        proof {
            lemma_known_tokens(st.current_game_state, st.current_round_state, st.game_state);
        }
        GameStatusDto {
            current_game_id: st.current_game_id.clone(),
            current_game_state: st.current_game_state.name().to_owned(),
            current_round_id: st.current_round_id,
            current_round_state: st.current_round_state.name().to_owned(),
            round_parameters: RoundParametersDto::from(&st.round_parameters),
            my_game_state: st.game_state.name().to_owned(),
            my_game_state_description: st.game_state_description.clone(),
            my_game_participants: participants,
            my_initial_hand: encode_cards(&st.my_initial_hand),
            cards_passed_by_me: encode_cards(&st.cards_passed_by_me),
            cards_passed_to_me: encode_cards(&st.cards_passed_to_me),
            my_final_hand: encode_cards(&st.my_final_hand),
            my_current_hand: encode_cards(&st.my_current_hand),
            my_game_deals: deals,
            my_in_progress_deal: in_progress,
            is_my_turn: st.is_my_turn,
        }
    }
}

proof fn lemma_known_tokens(g: GameInstanceState, r: RoundState, h: HeartsGameInstanceState)
    ensures
        exists|x: GameInstanceState| game_instance_token(x) == game_instance_token(g),
        exists|x: RoundState| round_token(x) == round_token(r),
        exists|x: HeartsGameInstanceState| hearts_game_token(x) == hearts_game_token(h),
{
    assert(game_instance_token(g) == game_instance_token(g));
    assert(round_token(r) == round_token(r));
    assert(hearts_game_token(h) == hearts_game_token(h));
}

} // verus!
