//! The defensive strategy: avoid points, but take them all when shooting the
//! moon looks safe, and take them to stop an opponent who is shooting.
use vstd::prelude::*;
use crate::card::{card_at, card_lt, lemma_card_at_index, lemma_card_index, lemma_index_injective, Card, Rank, Suit, DECK_SIZE};
use crate::card_set::CardSet;
use crate::deal::Deal;
use crate::game_status::{GameStatus, RoundParameters};
use crate::player::PlayerName;
use crate::strategy::rules::{
    might_win, player_might_win_deal, nobody_left, none_set, player_void_suits, plays_left, still_to_play, void_in, will_win,
    will_win_deal, SuitSet,
};
use crate::strategy::scoring::{
    dealt_set, later_potential, later_potential_scaled, potential_points, potential_scaled, scaled,
    voider, points_where, count_upto, lemma_count_upto_bounds, sum_where, Filter,
};

verus! {

/// The score of a candidate card; smaller is preferred, compared field by field.
#[derive(Clone, Copy, Debug, PartialEq, Eq, Structural)]
pub struct CardScore {
    pub definite_points: i128,
    pub potential_points: i128,
    pub later_potential_points: i128,
    pub rank: i128,
}

/// A score as four integers.
pub type ScoreKey = (int, int, int, int);

impl CardScore {
    pub open spec fn key(self) -> ScoreKey {
        (
            self.definite_points as int,
            self.potential_points as int,
            self.later_potential_points as int,
            self.rank as int,
        )
    }

    /// Bounds that every score of this engine keeps.
    pub open spec fn bounded(self) -> bool {
        &&& -score_bound() < self.definite_points < score_bound()
        &&& -score_bound() < self.potential_points < score_bound()
        &&& -score_bound() < self.later_potential_points < score_bound()
        &&& -score_bound() < self.rank < score_bound()
    }

    /// The score that prefers capturing points: both point estimates become
    /// costs to minimise as gains, the later cost becomes a gain.
    pub fn invert(&self) -> (r: CardScore)
        requires
            self.bounded(),
        ensures
            r.key() == invert_key(self.key()),
            r.bounded(),
    {
        CardScore {
            definite_points: 0 - abs128(self.definite_points),
            potential_points: 0 - abs128(self.potential_points),
            later_potential_points: abs128(self.later_potential_points),
            rank: self.rank,
        }
    }
}

pub open spec fn score_bound() -> int {
    0x0400_0000_0000_0000_0000_0000_0000_0000
}

pub open spec fn abs(x: int) -> int {
    if x < 0 {
        -x
    } else {
        x
    }
}

fn abs128(x: i128) -> (r: i128)
    requires
        x > i128::MIN,
    ensures
        r == abs(x as int),
{
    if x < 0 {
        -x
    } else {
        x
    }
}

pub open spec fn invert_key(k: ScoreKey) -> ScoreKey {
    (-abs(k.0), -abs(k.1), abs(k.2), k.3)
}

/// Lexicographic order on scores, with the canonical card order as the last key.
pub open spec fn key_before(a: ScoreKey, ca: Card, b: ScoreKey, cb: Card) -> bool {
    a.0 < b.0 || (a.0 == b.0 && (a.1 < b.1 || (a.1 == b.1 && (a.2 < b.2 || (a.2 == b.2 && (a.3
        < b.3 || (a.3 == b.3 && card_lt(ca, cb))))))))
}

pub fn score_before(a: &CardScore, ca: &Card, b: &CardScore, cb: &Card) -> (r: bool)
    ensures
        r == key_before(a.key(), *ca, b.key(), *cb),
{
    if a.definite_points != b.definite_points {
        a.definite_points < b.definite_points
    } else if a.potential_points != b.potential_points {
        a.potential_points < b.potential_points
    } else if a.later_potential_points != b.later_potential_points {
        a.later_potential_points < b.later_potential_points
    } else if a.rank != b.rank {
        a.rank < b.rank
    } else {
        ca.precedes(cb)
    }
}

/// Every participant still to play in the trick is known to be void in `s`
/// (and someone is still to play).
pub open spec fn trick_void(st: GameStatus, s: Suit) -> bool {
    !nobody_left(st.game_players@, st.in_progress_deal) && forall|i: int|
        0 <= i < st.game_players@.len() && #[trigger] still_to_play(
            st.game_players@,
            st.in_progress_deal,
            i,
        ) ==> void_in(st.game_deals@, st.game_players@[i].team_name@, s)
}

/// Cards have been played into the trick in progress.
pub open spec fn trick_started(st: GameStatus) -> bool {
    st.in_progress_deal matches Some(d) && d.deal_cards@.len() > 0
}

/// The unknown cards that may still be played into the trick: those of a suit
/// in which not every remaining player is void, and, once the trick has
/// started, not among the cards this participant passed.
pub open spec fn safe_remaining(st: GameStatus) -> Set<Card> {
    Set::new(
        |c: Card|
            st.unplayed().contains(c) && !trick_void(st, c.suit) && !(trick_started(st)
                && st.cards_passed_by_me@.contains(c)),
    )
}

/// The score of playing `card` from snapshot `st`.
pub open spec fn card_score(shooting: bool, st: GameStatus, card: Card) -> ScoreKey {
    let safe = safe_remaining(st);
    let rp = st.round_parameters;
    let potential = scaled(
        potential_points(
            shooting,
            st.game_players@,
            st.in_progress_deal,
            st.game_deals@,
            rp,
            card,
            safe,
        ),
    );
    let definite = if will_win_deal(card, st.game_players@, st.in_progress_deal, safe) {
        potential
    } else {
        0
    };
    let later = -scaled(later_potential(card, st.unplayed(), rp));
    let v = card.rank.value();
    (definite, potential, later, if rp.points_of(card) < 0 {
        v
    } else {
        -v
    })
}

/// What a snapshot gives once for every candidate card.
pub struct Analysis {
    pub unplayed: CardSet,
    pub safe: CardSet,
    pub dealt: CardSet,
    pub nobody: bool,
    pub left: Vec<bool>,
    pub voids: Vec<SuitSet>,
}

impl Analysis {
    pub open spec fn of(&self, st: GameStatus) -> bool {
        &&& self.unplayed.wf()
        &&& self.safe.wf()
        &&& self.dealt.wf()
        &&& self.unplayed@ == st.unplayed()
        &&& self.safe@ == safe_remaining(st)
        &&& self.dealt@ == dealt_set(st.in_progress_deal)
        &&& self.nobody == nobody_left(st.game_players@, st.in_progress_deal)
        &&& self.left@.len() == st.game_players@.len()
        &&& self.voids@.len() == st.game_players@.len()
        &&& forall|i: int|
            0 <= i < st.game_players@.len() ==> self.left@[i] == still_to_play(
                st.game_players@,
                st.in_progress_deal,
                i,
            )
        &&& forall|i: int, s: Suit|
            0 <= i < st.game_players@.len() ==> #[trigger] self.voids@[i].has(s) == void_in(
                st.game_deals@,
                st.game_players@[i].team_name@,
                s,
            )
    }

    pub fn new(st: &GameStatus) -> (r: Analysis)
        requires
            st.wf(),
        ensures
            r.of(*st),
    {
        let unplayed = st.unplayed_cards();
        let left = plays_left(&st.game_players, &st.in_progress_deal);
        let nobody = none_set(&left);
        proof {
            if !nobody {
                let i = choose|i: int| 0 <= i < left@.len() && left@[i];
                assert(still_to_play(st.game_players@, st.in_progress_deal, i));
            } else {
                assert forall|i: int| 0 <= i < st.game_players@.len() implies !#[trigger] still_to_play(
                    st.game_players@,
                    st.in_progress_deal,
                    i,
                ) by {
                    assert(!left@[i]);
                }
            }
        }
        let mut voids: Vec<SuitSet> = Vec::new();
        let mut i: usize = 0;
        while i < st.game_players.len()
            invariant
                i <= st.game_players@.len(),
                voids@.len() == i,
                forall|i2: int, s: Suit|
                    0 <= i2 < i ==> #[trigger] voids@[i2].has(s) == void_in(
                        st.game_deals@,
                        st.game_players@[i2].team_name@,
                        s,
                    ),
            decreases st.game_players@.len() - i,
        {
            voids.push(player_void_suits(&st.game_deals, &st.game_players[i].team_name));
            i = i + 1;
        }
        let trick_voids = deal_void_suits(&left, &voids, nobody, st);
        let started = match &st.in_progress_deal {
            Some(d) => d.deal_cards.len() > 0,
            None => false,
        };
        let mut safe = CardSet::new();
        let mut dealt = CardSet::new();
        let mut k: usize = 0;
        while k < DECK_SIZE
            invariant
                st.wf(),
                unplayed.wf(),
                unplayed@ == st.unplayed(),
                safe.wf(),
                dealt.wf(),
                k <= DECK_SIZE,
                started == trick_started(*st),
                forall|s: Suit| trick_voids.has(s) == trick_void(*st, s),
                forall|c: Card|
                    #[trigger] safe@.contains(c) <==> (c.index() < k && safe_remaining(*st).contains(
                        c,
                    )),
            decreases DECK_SIZE - k,
        {
            let c = Card::at(k);
            if unplayed.contains_at(k) && !trick_voids.contains(c.suit) && !(started
                && st.cards_passed_by_me.contains_at(k)) {
                safe.insert(c);
            }
            proof {
                assert forall|d: Card| d.index() == k implies d == c by {
                    lemma_index_injective(d, c);
                }
            }
            k = k + 1;
        }
        match &st.in_progress_deal {
            Some(d) => {
                let mut j: usize = 0;
                while j < d.deal_cards.len()
                    invariant
                        dealt.wf(),
                        j <= d.deal_cards@.len(),
                        forall|c: Card|
                            #[trigger] dealt@.contains(c) <==> exists|j2: int|
                                0 <= j2 < j && (#[trigger] d.deal_cards@[j2]).card == c,
                    decreases d.deal_cards@.len() - j,
                {
                    dealt.insert(d.deal_cards[j].card);
                    proof {
                        assert forall|c: Card| #[trigger]
                            dealt@.contains(c) <==> exists|j2: int|
                                0 <= j2 < j + 1 && (#[trigger] d.deal_cards@[j2]).card == c by {
                            if c == d.deal_cards@[j as int].card {
                                assert(d.deal_cards@[j as int].card == c);
                            }
                        }
                    }
                    j = j + 1;
                }
                assert(dealt@ =~= dealt_set(st.in_progress_deal));
            },
            None => {
                assert(dealt@ =~= dealt_set(st.in_progress_deal));
            },
        }
        proof {
            assert forall|c: Card| c.index() < 52 by {
                lemma_card_index(c);
            }
            assert(safe@ =~= safe_remaining(*st));
        }
        Analysis { unplayed, safe, dealt, nobody, left, voids }
    }

    /// Some participant still to play is known to be void in `s`.
    pub fn voider_in(&self, s: Suit) -> (r: bool)
        requires
            self.left@.len() == self.voids@.len(),
        ensures
            r == exists|i: int| 0 <= i < self.left@.len() && self.left@[i] && #[trigger] self.voids@[i].has(s),
    {
        let mut i: usize = 0;
        while i < self.left.len()
            invariant
                i <= self.left@.len(),
                self.left@.len() == self.voids@.len(),
                forall|i2: int| 0 <= i2 < i ==> !(self.left@[i2] && #[trigger] self.voids@[i2].has(s)),
            decreases self.left@.len() - i,
        {
            if self.left[i] && self.voids[i].contains(s) {
                return true;
            }
            i = i + 1;
        }
        false
    }
}

/// The suits in which every participant still to play is known to be void.
fn deal_void_suits(left: &Vec<bool>, voids: &Vec<SuitSet>, nobody: bool, st: &GameStatus) -> (r: SuitSet)
    requires
        left@.len() == st.game_players@.len(),
        voids@.len() == st.game_players@.len(),
        nobody == nobody_left(st.game_players@, st.in_progress_deal),
        forall|i: int|
            0 <= i < st.game_players@.len() ==> left@[i] == still_to_play(
                st.game_players@,
                st.in_progress_deal,
                i,
            ),
        forall|i: int, s: Suit|
            0 <= i < st.game_players@.len() ==> #[trigger] voids@[i].has(s) == void_in(
                st.game_deals@,
                st.game_players@[i].team_name@,
                s,
            ),
    ensures
        forall|s: Suit| r.has(s) == trick_void(*st, s),
{
    if nobody {
        return SuitSet::empty();
    }
    let mut r = SuitSet { club: true, diamond: true, heart: true, spade: true };
    let mut i: usize = 0;
    while i < left.len()
        invariant
            i <= left@.len(),
            left@.len() == st.game_players@.len(),
            voids@.len() == st.game_players@.len(),
            !nobody_left(st.game_players@, st.in_progress_deal),
            forall|i: int|
                0 <= i < st.game_players@.len() ==> left@[i] == still_to_play(
                    st.game_players@,
                    st.in_progress_deal,
                    i,
                ),
            forall|i: int, s: Suit|
                0 <= i < st.game_players@.len() ==> #[trigger] voids@[i].has(s) == void_in(
                    st.game_deals@,
                    st.game_players@[i].team_name@,
                    s,
                ),
            forall|s: Suit|
                r.has(s) == forall|i2: int|
                    0 <= i2 < i && #[trigger] still_to_play(st.game_players@, st.in_progress_deal, i2)
                        ==> void_in(st.game_deals@, st.game_players@[i2].team_name@, s),
        decreases left@.len() - i,
    {
        let ghost r0 = r;
        let v = voids[i];
        if left[i] {
            r = SuitSet {
                club: r.club && v.club,
                diamond: r.diamond && v.diamond,
                heart: r.heart && v.heart,
                spade: r.spade && v.spade,
            };
        }
        proof {
            assert forall|s: Suit|
                r.has(s) == forall|i2: int|
                    0 <= i2 < i + 1 && #[trigger] still_to_play(st.game_players@, st.in_progress_deal, i2)
                        ==> void_in(st.game_deals@, st.game_players@[i2].team_name@, s) by {
                assert(v.has(s) == void_in(st.game_deals@, st.game_players@[i as int].team_name@, s));
                assert(left@[i as int] == still_to_play(st.game_players@, st.in_progress_deal, i as int));
                assert(r.has(s) == (r0.has(s) && (left@[i as int] ==> v.has(s))));
            }
        }
        i = i + 1;
    }
    r
}

/// The score of playing `card`, with the flag `shooting` as it stood before the decision.
pub fn score_card(shooting: bool, st: &GameStatus, a: &Analysis, card: &Card) -> (r: CardScore)
    requires
        st.wf(),
        a.of(*st),
    ensures
        r.key() == card_score(shooting, *st, *card),
        r.bounded(),
{
    let rp = &st.round_parameters;
    let voider_in_suit = a.voider_in(card.suit);
    proof {
        if voider_in_suit {
            let i = choose|i: int| 0 <= i < a.left@.len() && a.left@[i] && #[trigger] a.voids@[i].has(card.suit);
            assert(still_to_play(st.game_players@, st.in_progress_deal, i));
        }
        if voider(st.game_players@, st.in_progress_deal, st.game_deals@, card.suit) {
            let i = choose|i: int|
                0 <= i < st.game_players@.len() && #[trigger] still_to_play(st.game_players@, st.in_progress_deal, i)
                    && void_in(st.game_deals@, st.game_players@[i].team_name@, card.suit);
            assert(a.left@[i] && a.voids@[i].has(card.suit));
        }
    }
    let potential = potential_scaled(
        shooting,
        a.nobody,
        voider_in_suit,
        &st.game_players,
        &st.in_progress_deal,
        &st.game_deals,
        rp,
        card,
        &a.safe,
        &a.dealt,
    );
    let definite = if will_win(card, a.nobody, &st.in_progress_deal, &a.safe) {
        potential
    } else {
        0
    };
    let later = 0 - later_potential_scaled(card, &a.unplayed, rp);
    let v = card.rank.number() as i128;
    let rank = if rp.points(card) < 0 {
        v
    } else {
        0 - v
    };
    CardScore { definite_points: definite, potential_points: potential, later_potential_points: later, rank }
}

/// The cards of the completed tricks that the participant named `name` won.
pub open spec fn won_cards(deals: Seq<Deal>, name: Seq<char>) -> Set<Card> {
    Set::new(
        |c: Card|
            exists|k: int| 0 <= k < deals.len() && deals[k].won_by(name) && #[trigger] deals[k].has_card(c),
    )
}

/// The points that participant `i` has taken in hearts and the queen of spades
/// (the shooting filter ignores its reference card; the first card stands in).
pub open spec fn shoot_score(st: GameStatus, i: int) -> int {
    points_where(
        won_cards(st.game_deals@, st.game_players@[i].team_name@),
        Filter::Shooting,
        card_at(0),
        st.round_parameters,
    )
}

/// The participants, among the first `n`, that have taken a positive shoot score.
pub open spec fn shooters_upto(st: GameStatus, n: int) -> Seq<int>
    decreases n,
{
    if n <= 0 {
        Seq::empty()
    } else if shoot_score(st, n - 1) > 0 {
        shooters_upto(st, n - 1).push(n - 1)
    } else {
        shooters_upto(st, n - 1)
    }
}

/// The participants that have taken a positive shoot score, in seating order.
pub open spec fn shooters(st: GameStatus) -> Seq<int> {
    shooters_upto(st, st.game_players@.len() as int)
}

/// The cards of this participant's hand that would win the trick outright.
pub open spec fn sure_winners(st: GameStatus) -> spec_fn(Card) -> bool {
    |c: Card|
        st.my_current_hand@.contains(c) && will_win_deal(
            c,
            st.game_players@,
            st.in_progress_deal,
            st.unplayed(),
        )
}

/// This participant should shoot the moon: nobody else has taken shooting
/// points, and either it already decided to shoot or more than `den / num`
/// of its hand would win outright.
pub open spec fn am_i_shooter(name: Seq<char>, shooting: bool, st: GameStatus, num: int, den: int) -> bool {
    let ps = shooters(st);
    &&& ps.len() <= 1
    &&& (ps.len() == 0 || st.game_players@[ps[0]].team_name@ == name)
    &&& (shooting || count_upto(sure_winners(st), 52) * num > st.my_current_hand@.len() * den)
}

/// The participants, among the first `n`, whose shoot score exceeds 20 less
/// the number of completed tricks.
pub open spec fn over_target_upto(st: GameStatus, n: int) -> Seq<int>
    decreases n,
{
    if n <= 0 {
        Seq::empty()
    } else if shoot_score(st, n - 1) + st.game_deals@.len() > 20 {
        over_target_upto(st, n - 1).push(n - 1)
    } else {
        over_target_upto(st, n - 1)
    }
}

/// Someone looks set to shoot the moon: exactly one participant's shoot score
/// exceeds 20 less the number of completed tricks, and that participant could
/// still win the trick in progress.
pub open spec fn possible_shooter(st: GameStatus) -> bool {
    let ps = over_target_upto(st, st.game_players@.len() as int);
    &&& ps.len() == 1
    &&& (st.in_progress_deal matches Some(d) ==> might_win(st.game_players@[ps[0]].team_name@, d))
}

/// Adds to `cards` every card played in `deal`.
fn insert_plays(cards: &mut CardSet, deal: &Deal)
    requires
        old(cards).wf(),
    ensures
        final(cards).wf(),
        final(cards)@ == old(cards)@.union(Set::new(|c: Card| deal.has_card(c))),
{
    let mut j: usize = 0;
    while j < deal.deal_cards.len()
        invariant
            cards.wf(),
            j <= deal.deal_cards@.len(),
            forall|c: Card|
                #[trigger] cards@.contains(c) <==> (old(cards)@.contains(c) || exists|j2: int|
                    0 <= j2 < j && (#[trigger] deal.deal_cards@[j2]).card == c),
        decreases deal.deal_cards@.len() - j,
    {
        cards.insert(deal.deal_cards[j].card);
        proof {
            assert forall|c: Card|
                #[trigger] cards@.contains(c) <==> (old(cards)@.contains(c) || exists|j2: int|
                    0 <= j2 < j + 1 && (#[trigger] deal.deal_cards@[j2]).card == c) by {
                if c == deal.deal_cards@[j as int].card {
                    assert(deal.deal_cards@[j as int].card == c);
                }
            }
        }
        j = j + 1;
    }
    assert(cards@ =~= old(cards)@.union(Set::new(|c: Card| deal.has_card(c))));
}

/// The cards of the completed tricks that the participant named `name` won.
pub fn cards_won(deals: &Vec<Deal>, name: &PlayerName) -> (r: CardSet)
    ensures
        r.wf(),
        r@ == won_cards(deals@, name@),
{
    let mut r = CardSet::new();
    let mut k: usize = 0;
    while k < deals.len()
        invariant
            r.wf(),
            k <= deals@.len(),
            r@ == Set::new(
                |c: Card|
                    exists|k2: int| 0 <= k2 < k && deals@[k2].won_by(name@) && #[trigger] deals@[k2].has_card(c),
            ),
        decreases deals@.len() - k,
    {
        let deal = &deals[k];
        let won = match &deal.deal_winner {
            Some(w) => w.same(name),
            None => false,
        };
        let ghost before = r@;
        if won {
            insert_plays(&mut r, deal);
        }
        assert(r@ =~= Set::new(
            |c: Card|
                exists|k2: int| 0 <= k2 < k + 1 && deals@[k2].won_by(name@) && #[trigger] deals@[k2].has_card(c),
        )) by {
            assert forall|c: Card|
                (exists|k2: int| 0 <= k2 < k + 1 && deals@[k2].won_by(name@) && #[trigger] deals@[k2].has_card(c))
                    <==> (before.contains(c) || (won && deal.has_card(c))) by {
                if won && deal.has_card(c) {
                    assert(deals@[k as int].has_card(c));
                }
            }
        }
        k = k + 1;
    }
    r
}

/// The participants with a positive shoot score, with that score, in seating order.
pub fn possible_shooters(st: &GameStatus) -> (r: Vec<(usize, i64)>)
    requires
        st.wf(),
    ensures
        r@.len() == shooters(*st).len(),
        forall|k: int|
            0 <= k < r@.len() ==> r@[k].0 as int == shooters(*st)[k] && r@[k].1 as int
                == shoot_score(*st, shooters(*st)[k]),
        forall|k: int| 0 <= k < shooters(*st).len() ==> 0 <= #[trigger] shooters(*st)[k] < st.game_players@.len(),
{
    let mut r: Vec<(usize, i64)> = Vec::new();
    let mut i: usize = 0;
    let reference = Card::at(0);
    while i < st.game_players.len()
        invariant
            st.wf(),
            reference == card_at(0),
            i <= st.game_players@.len(),
            r@.len() == shooters_upto(*st, i as int).len(),
            forall|k: int|
                0 <= k < r@.len() ==> r@[k].0 as int == shooters_upto(*st, i as int)[k] && r@[k].1 as int
                    == shoot_score(*st, shooters_upto(*st, i as int)[k]),
            forall|k: int| 0 <= k < shooters_upto(*st, i as int).len() ==> 0 <= #[trigger] shooters_upto(*st, i as int)[k] < i,
        decreases st.game_players@.len() - i,
    {
        let won = cards_won(&st.game_deals, &st.game_players[i].team_name);
        let score = sum_where(&won, Filter::Shooting, &reference, &st.round_parameters);
        if score > 0 {
            r.push((i, score));
        }
        assert(shooters_upto(*st, i + 1) == if shoot_score(*st, i as int) > 0 {
            shooters_upto(*st, i as int).push(i as int)
        } else {
            shooters_upto(*st, i as int)
        });
        i = i + 1;
    }
    r
}

/// Whether this participant, named `name`, should shoot the moon.
pub fn i_am_shooter(
    name: &PlayerName,
    shooting: bool,
    st: &GameStatus,
    a: &Analysis,
    ps: &Vec<(usize, i64)>,
    num: i64,
    den: i64,
) -> (r: bool)
    requires
        st.wf(),
        a.of(*st),
        ps@.len() == shooters(*st).len(),
        forall|k: int| 0 <= k < ps@.len() ==> ps@[k].0 as int == shooters(*st)[k],
        forall|k: int| 0 <= k < shooters(*st).len() ==> 0 <= #[trigger] shooters(*st)[k] < st.game_players@.len(),
    ensures
        r == am_i_shooter(name@, shooting, *st, num as int, den as int),
{
    if ps.len() > 1 {
        return false;
    }
    if ps.len() == 1 {
        assert(0 <= shooters(*st)[0] < st.game_players@.len());
    }
    if ps.len() == 1 && !st.game_players[ps[0].0].team_name.same(name) {
        return false;
    }
    if shooting {
        return true;
    }
    let mut winners: i64 = 0;
    let mut i: usize = 0;
    while i < DECK_SIZE
        invariant
            st.wf(),
            a.of(*st),
            i <= DECK_SIZE,
            winners == count_upto(sure_winners(*st), i as int),
        decreases DECK_SIZE - i,
    {
        proof {
            lemma_count_upto_bounds(sure_winners(*st), i as int);
        }
        let c = Card::at(i);
        if st.my_current_hand.contains_at(i) && will_win(&c, a.nobody, &st.in_progress_deal, &a.unplayed) {
            winners = winners + 1;
        }
        i = i + 1;
    }
    proof {
        lemma_count_upto_bounds(sure_winners(*st), 52);
    }
    let held = st.my_current_hand.len() as i128;
    let bound: i128 = 52 * 0x8000_0000_0000_0000;
    assert(-bound <= (winners as i128) * (num as i128) <= bound && -bound <= held * (den as i128) <= bound) by (nonlinear_arith)
        requires
            0 <= winners <= 52,
            0 <= held <= 52,
            -0x8000_0000_0000_0000 <= num < 0x8000_0000_0000_0000,
            -0x8000_0000_0000_0000 <= den < 0x8000_0000_0000_0000,
            bound == 52 * 0x8000_0000_0000_0000,
    ;
    (winners as i128) * (num as i128) > held * (den as i128)
}

/// Whether someone (an opponent, or this participant) looks set to shoot the moon.
pub fn possible_shooter_exec(st: &GameStatus) -> (r: bool)
    requires
        st.wf(),
    ensures
        r == possible_shooter(*st),
{
    let mut count: usize = 0;
    let mut first: usize = 0;
    let mut i: usize = 0;
    let reference = Card::at(0);
    while i < st.game_players.len()
        invariant
            st.wf(),
            reference == card_at(0),
            i <= st.game_players@.len(),
            count == over_target_upto(*st, i as int).len(),
            count <= i,
            count > 0 ==> first as int == over_target_upto(*st, i as int)[0] && first < i,
        decreases st.game_players@.len() - i,
    {
        let won = cards_won(&st.game_deals, &st.game_players[i].team_name);
        let score = sum_where(&won, Filter::Shooting, &reference, &st.round_parameters);
        proof {
            crate::strategy::scoring::lemma_where_bounds(won@, Filter::Shooting, reference, st.round_parameters);
        }
        if score as i128 + st.game_deals.len() as i128 > 20 {
            if count == 0 {
                first = i;
            }
            count = count + 1;
        }
        assert(over_target_upto(*st, i + 1) == if shoot_score(*st, i as int) + st.game_deals@.len() > 20 {
            over_target_upto(*st, i as int).push(i as int)
        } else {
            over_target_upto(*st, i as int)
        });
        i = i + 1;
    }
    if count != 1 {
        return false;
    }
    match &st.in_progress_deal {
        Some(d) => player_might_win_deal(&st.game_players[first].team_name, d),
        None => true,
    }
}

/// The conventional opening card, played whenever it is held.
pub open spec fn two_of_clubs() -> Card {
    Card { suit: Suit::Club, rank: Rank::Two }
}

/// The led suit of the trick in progress, if a card has been led.
pub open spec fn led_suit(st: GameStatus) -> Option<Suit> {
    match st.in_progress_deal {
        Some(d) => d.suit,
        None => None,
    }
}

/// Playing `c` follows suit: when a suit has been led and the hand holds a
/// card of it, `c` is of that suit.
pub open spec fn follows_suit(st: GameStatus, c: Card) -> bool {
    match led_suit(st) {
        Some(t) => (exists|d: Card| st.my_current_hand@.contains(d) && d.suit == t) ==> c.suit == t,
        None => true,
    }
}

/// `c` is in hand and may be played under the follow-suit rule.
pub open spec fn legal(st: GameStatus, c: Card) -> bool {
    st.my_current_hand@.contains(c) && follows_suit(st, c)
}

/// The decision captures points: this participant shoots the moon, or
/// someone looks set to.
pub open spec fn captures(name: Seq<char>, shooting: bool, st: GameStatus) -> bool {
    am_i_shooter(name, shooting, st, 2, 1) || possible_shooter(st)
}

/// The key by which candidate `c` is ranked for play.
pub open spec fn play_key(name: Seq<char>, shooting: bool, st: GameStatus, c: Card) -> ScoreKey {
    if captures(name, shooting, st) {
        invert_key(card_score(shooting, st, c))
    } else {
        card_score(shooting, st, c)
    }
}

/// `r` is the card to play: the opening card when held; otherwise the legal
/// card whose key comes first.
pub open spec fn is_play_choice(name: Seq<char>, shooting: bool, st: GameStatus, r: Card) -> bool {
    if st.my_current_hand@.contains(two_of_clubs()) {
        r == two_of_clubs()
    } else {
        &&& legal(st, r)
        &&& forall|c: Card|
            #[trigger] legal(st, c) && c != r ==> key_before(
                play_key(name, shooting, st, r),
                r,
                play_key(name, shooting, st, c),
                c,
            )
    }
}

pub proof fn lemma_key_before_order(a: ScoreKey, ca: Card, b: ScoreKey, cb: Card, c: ScoreKey, cc: Card)
    ensures
        key_before(a, ca, b, cb) ==> !key_before(b, cb, a, ca),
        ca != cb ==> key_before(a, ca, b, cb) || key_before(b, cb, a, ca),
        key_before(a, ca, b, cb) && key_before(b, cb, c, cc) ==> key_before(a, ca, c, cc),
{
    lemma_index_injective(ca, cb);
}

/// Whether `hand` holds a card of suit `t`.
fn holds_suit(hand: &CardSet, t: Suit) -> (r: bool)
    requires
        hand.wf(),
    ensures
        r == exists|d: Card| hand@.contains(d) && d.suit == t,
{
    let mut i: usize = 0;
    while i < DECK_SIZE
        invariant
            hand.wf(),
            i <= DECK_SIZE,
            forall|d: Card| d.index() < i && hand@.contains(d) ==> d.suit != t,
        decreases DECK_SIZE - i,
    {
        if hand.contains_at(i) {
            let c = Card::at(i);
            if c.suit == t {
                return true;
            }
        }
        proof {
            assert forall|d: Card| d.index() == i implies d == card_at(i as int) by {
                lemma_card_at_index(i as int);
                lemma_index_injective(d, card_at(i as int));
            }
        }
        i = i + 1;
    }
    proof {
        assert forall|d: Card| d.index() < 52 by {
            lemma_card_index(d);
        }
    }
    false
}

/// The defensive strategy and the state it keeps between decisions.
#[derive(Debug)]
pub struct DefensiveCardStrategy {
    player_name: PlayerName,
    shooting_the_moon: bool,
}

impl DefensiveCardStrategy {
    /// The name of the participant this strategy plays for.
    pub closed spec fn player(&self) -> Seq<char> {
        self.player_name@
    }

    /// Whether the strategy has decided to shoot the moon.
    pub closed spec fn shooting(&self) -> bool {
        self.shooting_the_moon
    }

    pub fn new(player_name: PlayerName) -> (r: DefensiveCardStrategy)
        ensures
            r.player() == player_name@,
            !r.shooting(),
    {
        DefensiveCardStrategy { player_name, shooting_the_moon: false }
    }

    pub fn player_name(&self) -> (r: &PlayerName)
        ensures
            r@ == self.player(),
    {
        &self.player_name
    }

    pub fn is_shooting_the_moon(&self) -> (r: bool)
        ensures
            r == self.shooting(),
    {
        self.shooting_the_moon
    }

    /// The card to play from snapshot `st`.
    pub fn play_card(&mut self, st: &GameStatus) -> (r: Card)
        requires
            st.wf(),
            st.my_current_hand@.len() > 0,
        ensures
            is_play_choice(old(self).player(), old(self).shooting(), *st, r),
            st.my_current_hand@.contains(r),
            !st.my_current_hand@.contains(two_of_clubs()) ==> follows_suit(*st, r),
            final(self).player() == old(self).player(),
            final(self).shooting() == if st.my_current_hand@.contains(two_of_clubs()) {
                old(self).shooting()
            } else {
                am_i_shooter(old(self).player(), old(self).shooting(), *st, 2, 1)
            },
    {
        let two = Card::new(Suit::Club, Rank::Two);
        if st.my_current_hand.contains(&two) {
            return two;
        }
        let ghost name = self.player();
        let shooting = self.shooting_the_moon;
        let a = Analysis::new(st);
        let led = match &st.in_progress_deal {
            Some(d) => d.suit,
            None => None,
        };
        let must_follow = match led {
            Some(t) => holds_suit(&st.my_current_hand, t),
            None => false,
        };
        let ps = possible_shooters(st);
        let opponent = possible_shooter_exec(st);
        let me = i_am_shooter(&self.player_name, shooting, st, &a, &ps, 2, 1);
        let invert = me || opponent;
        let mut found = false;
        let mut best_card = two;
        let mut best_score = CardScore { definite_points: 0, potential_points: 0, later_potential_points: 0, rank: 0 };
        let mut i: usize = 0;
        while i < DECK_SIZE
            invariant
                st.wf(),
                a.of(*st),
                i <= DECK_SIZE,
                led == led_suit(*st),
                must_follow == (led matches Some(t) && exists|d: Card| st.my_current_hand@.contains(d) && d.suit == t),
                invert == captures(name, shooting, *st),
                found ==> legal(*st, best_card) && best_card.index() < i && best_score.key() == play_key(name, shooting, *st, best_card),
                forall|c: Card|
                    #[trigger] legal(*st, c) && c.index() < i && c != best_card ==> found && key_before(
                        play_key(name, shooting, *st, best_card),
                        best_card,
                        play_key(name, shooting, *st, c),
                        c,
                    ),
                !found ==> forall|c: Card| #[trigger] legal(*st, c) ==> c.index() >= i,
            decreases DECK_SIZE - i,
        {
            let c = Card::at(i);
            let ok = st.my_current_hand.contains_at(i) && match led {
                Some(t) => !must_follow || c.suit == t,
                None => true,
            };
            assert(ok == legal(*st, c));
            if ok {
                let mut score = score_card(shooting, st, &a, &c);
                if invert {
                    score = score.invert();
                }
                if !found || score_before(&score, &c, &best_score, &best_card) {
                    proof {
                        assert forall|d: Card|
                            #[trigger] legal(*st, d) && d.index() < i + 1 && d != c implies key_before(
                                play_key(name, shooting, *st, c),
                                c,
                                play_key(name, shooting, *st, d),
                                d,
                            ) by {
                            lemma_index_injective(d, c);
                            if found && d != best_card {
                                lemma_key_before_order(
                                    play_key(name, shooting, *st, c), c,
                                    play_key(name, shooting, *st, best_card), best_card,
                                    play_key(name, shooting, *st, d), d,
                                );
                            }
                        }
                    }
                    found = true;
                    best_card = c;
                    best_score = score;
                } else {
                    proof {
                        lemma_key_before_order(
                            play_key(name, shooting, *st, best_card), best_card,
                            play_key(name, shooting, *st, c), c,
                            play_key(name, shooting, *st, c), c,
                        );
                        assert forall|d: Card|
                            #[trigger] legal(*st, d) && d.index() < i + 1 && d != best_card implies key_before(
                                play_key(name, shooting, *st, best_card),
                                best_card,
                                play_key(name, shooting, *st, d),
                                d,
                            ) by {
                            lemma_index_injective(d, c);
                        }
                    }
                }
            } else {
                proof {
                    assert forall|d: Card| #[trigger] legal(*st, d) && d.index() == i implies false by {
                        lemma_index_injective(d, c);
                    }
                }
            }
            i = i + 1;
        }
        proof {
            st.my_current_hand.lemma_finite();
            assert(!(st.my_current_hand@ =~= Set::<Card>::empty()));
            let h = choose|h: Card| st.my_current_hand@.contains(h);
            let w = match led {
                Some(t) => if must_follow {
                    choose|d: Card| st.my_current_hand@.contains(d) && d.suit == t
                } else {
                    h
                },
                None => h,
            };
            assert(legal(*st, w));
            lemma_card_index(w);
        }
        self.shooting_the_moon = me;
        best_card
    }
}

/// The key by which card `c` is ranked for passing, given the cards
/// `remaining` whose place is unknown: the negated cost of keeping it, made
/// costlier for hearts and high spades; by magnitude and lowest rank first
/// when shooting the moon, else highest rank first.
pub open spec fn pass_key(shooting: bool, remaining: Set<Card>, rp: RoundParameters, c: Card) -> (int, int) {
    let base = -scaled(later_potential(c, remaining, rp));
    let p = base - (if c.suit == Suit::Heart {
        2int
    } else {
        0
    }) - (if c.suit == Suit::Spade && c.rank.value() > 11 {
        2int
    } else {
        0
    });
    let v = c.rank.value();
    if shooting {
        (abs(p), v)
    } else {
        (p, -v)
    }
}

pub open spec fn pass_before(a: (int, int), ca: Card, b: (int, int), cb: Card) -> bool {
    a.0 < b.0 || (a.0 == b.0 && (a.1 < b.1 || (a.1 == b.1 && card_lt(ca, cb))))
}

/// `c` may still be chosen: it is in `hand` and not among `taken`.
pub open spec fn candidate(hand: Set<Card>, taken: Set<Card>, c: Card) -> bool {
    hand.contains(c) && !taken.contains(c)
}

/// `c` is the candidate whose pass key comes first.
pub open spec fn is_pass_pick(
    hand: Set<Card>,
    taken: Set<Card>,
    rp: RoundParameters,
    shooting: bool,
    c: Card,
) -> bool {
    &&& candidate(hand, taken, c)
    &&& forall|d: Card|
        #[trigger] candidate(hand, taken, d) && d != c ==> pass_before(
            pass_key(shooting, taken, rp, c),
            c,
            pass_key(shooting, taken, rp, d),
            d,
        )
}

/// `r` is the sequence of cards to pass: each the best candidate of the
/// initial hand once the unknown cards and the earlier picks are set aside,
/// as many as the round asks for, or fewer when the candidates run out.
pub open spec fn is_pass_choice(st: GameStatus, shooting: bool, r: Seq<Card>) -> bool {
    let hand = st.my_initial_hand@;
    let base = st.unplayed();
    let n = st.round_parameters.number_of_cards_to_be_passed as int;
    &&& r.len() <= n
    &&& forall|k: int|
        0 <= k < r.len() ==> is_pass_pick(
            hand,
            base.union(r.subrange(0, k).to_set()),
            st.round_parameters,
            shooting,
            #[trigger] r[k],
        )
    &&& (r.len() < n ==> forall|c: Card| hand.contains(c) ==> base.union(r.to_set()).contains(c))
}

pub proof fn lemma_pass_before_order(a: (int, int), ca: Card, b: (int, int), cb: Card, c: (int, int), cc: Card)
    ensures
        pass_before(a, ca, b, cb) ==> !pass_before(b, cb, a, ca),
        ca != cb ==> pass_before(a, ca, b, cb) || pass_before(b, cb, a, ca),
        pass_before(a, ca, b, cb) && pass_before(b, cb, c, cc) ==> pass_before(a, ca, c, cc),
{
    lemma_index_injective(ca, cb);
}

fn pass_key_exec(shooting: bool, remaining: &CardSet, rp: &RoundParameters, c: &Card) -> (r: (i128, i128))
    requires
        remaining.wf(),
        rp.wf(),
    ensures
        (r.0 as int, r.1 as int) == pass_key(shooting, remaining@, *rp, *c),
{
    let mut p = 0 - later_potential_scaled(c, remaining, rp);
    if c.suit == Suit::Heart {
        p = p - 2;
    }
    if c.suit == Suit::Spade && c.rank.number() > 11 {
        p = p - 2;
    }
    let v = c.rank.number() as i128;
    if shooting {
        (abs128(p), v)
    } else {
        (p, 0 - v)
    }
}

/// The next card to pass from `hand`, with `taken` set aside; none when no candidate is left.
pub fn pass_card(hand: &CardSet, taken: &CardSet, rp: &RoundParameters, shooting: bool) -> (r: Option<Card>)
    requires
        hand.wf(),
        taken.wf(),
        rp.wf(),
    ensures
        r matches Some(c) ==> is_pass_pick(hand@, taken@, *rp, shooting, c),
        r is None ==> forall|c: Card| !#[trigger] candidate(hand@, taken@, c),
{
    let mut found = false;
    let mut best_card = Card::at(0);
    let mut best_key: (i128, i128) = (0, 0);
    let mut i: usize = 0;
    while i < DECK_SIZE
        invariant
            hand.wf(),
            taken.wf(),
            rp.wf(),
            i <= DECK_SIZE,
            found ==> candidate(hand@, taken@, best_card) && best_card.index() < i && (best_key.0 as int, best_key.1 as int) == pass_key(shooting, taken@, *rp, best_card),
            forall|c: Card|
                #[trigger] candidate(hand@, taken@, c) && c.index() < i && c != best_card ==> found && pass_before(
                    pass_key(shooting, taken@, *rp, best_card),
                    best_card,
                    pass_key(shooting, taken@, *rp, c),
                    c,
                ),
            !found ==> forall|c: Card| #[trigger] candidate(hand@, taken@, c) ==> c.index() >= i,
        decreases DECK_SIZE - i,
    {
        let c = Card::at(i);
        if hand.contains_at(i) && !taken.contains_at(i) {
            let key = pass_key_exec(shooting, taken, rp, &c);
            let better = !found || key.0 < best_key.0 || (key.0 == best_key.0 && (key.1 < best_key.1 || (key.1 == best_key.1 && c.precedes(&best_card))));
            if better {
                proof {
                    assert forall|d: Card|
                        #[trigger] candidate(hand@, taken@, d) && d.index() < i + 1 && d != c implies pass_before(
                            pass_key(shooting, taken@, *rp, c),
                            c,
                            pass_key(shooting, taken@, *rp, d),
                            d,
                        ) by {
                        lemma_index_injective(d, c);
                        if found && d != best_card {
                            lemma_pass_before_order(
                                pass_key(shooting, taken@, *rp, c), c,
                                pass_key(shooting, taken@, *rp, best_card), best_card,
                                pass_key(shooting, taken@, *rp, d), d,
                            );
                        }
                    }
                }
                found = true;
                best_card = c;
                best_key = key;
            } else {
                proof {
                    lemma_pass_before_order(
                        pass_key(shooting, taken@, *rp, best_card), best_card,
                        pass_key(shooting, taken@, *rp, c), c,
                        pass_key(shooting, taken@, *rp, c), c,
                    );
                    assert forall|d: Card|
                        #[trigger] candidate(hand@, taken@, d) && d.index() < i + 1 && d != best_card implies pass_before(
                            pass_key(shooting, taken@, *rp, best_card),
                            best_card,
                            pass_key(shooting, taken@, *rp, d),
                            d,
                        ) by {
                        lemma_index_injective(d, c);
                    }
                }
            }
        } else {
            proof {
                assert forall|d: Card| #[trigger] candidate(hand@, taken@, d) && d.index() == i implies false by {
                    lemma_index_injective(d, c);
                }
            }
        }
        i = i + 1;
    }
    if found {
        Some(best_card)
    } else {
        proof {
            assert forall|c: Card| !#[trigger] candidate(hand@, taken@, c) by {
                lemma_card_index(c);
            }
        }
        None
    }
}

impl DefensiveCardStrategy {
    /// The cards to pass from snapshot `st`.
    pub fn pass_cards(&mut self, st: &GameStatus) -> (r: Vec<Card>)
        requires
            st.wf(),
        ensures
            final(self).player() == old(self).player(),
            final(self).shooting() == am_i_shooter(old(self).player(), false, *st, 5, 2),
            is_pass_choice(*st, final(self).shooting(), r@),
            r@.no_duplicates(),
            forall|k: int| 0 <= k < r@.len() ==> st.my_initial_hand@.contains(#[trigger] r@[k]),
            st.my_initial_hand@.difference(st.unplayed()).len()
                >= st.round_parameters.number_of_cards_to_be_passed ==> r@.len()
                == st.round_parameters.number_of_cards_to_be_passed,
    {
        self.shooting_the_moon = false;
        let a = Analysis::new(st);
        let ps = possible_shooters(st);
        let shooter = i_am_shooter(&self.player_name, false, st, &a, &ps, 5, 2);
        self.shooting_the_moon = shooter;
        let rp = &st.round_parameters;
        let n = rp.number_of_cards_to_be_passed as usize;
        let mut taken = st.unplayed_cards();
        let ghost base = st.unplayed();
        let ghost hand = st.my_initial_hand@;
        let mut r: Vec<Card> = Vec::new();
        while r.len() < n
            invariant
                st.wf(),
                taken.wf(),
                n == st.round_parameters.number_of_cards_to_be_passed,
                base == st.unplayed(),
                hand == st.my_initial_hand@,
                r@.len() <= n,
                taken@ == base.union(r@.to_set()),
                forall|k: int|
                    0 <= k < r@.len() ==> is_pass_pick(
                        hand,
                        base.union(r@.subrange(0, k).to_set()),
                        st.round_parameters,
                        shooter,
                        #[trigger] r@[k],
                    ),
            ensures
                taken@ == base.union(r@.to_set()),
                r@.len() <= n,
                forall|k: int|
                    0 <= k < r@.len() ==> is_pass_pick(
                        hand,
                        base.union(r@.subrange(0, k).to_set()),
                        st.round_parameters,
                        shooter,
                        #[trigger] r@[k],
                    ),
                r@.len() < n ==> forall|c: Card| hand.contains(c) ==> taken@.contains(c),
            decreases n - r@.len(),
        {
            match pass_card(&st.my_initial_hand, &taken, &st.round_parameters, shooter) {
                Some(c) => {
                    let ghost before = r@;
                    let ghost taken_before = taken@;
                    r.push(c);
                    taken.insert(c);
                    proof {
                        assert(r@.subrange(0, before.len() as int) =~= before);
                        assert forall|k: int| 0 <= k < r@.len() implies is_pass_pick(
                            hand,
                            base.union(r@.subrange(0, k).to_set()),
                            st.round_parameters,
                            shooter,
                            #[trigger] r@[k],
                        ) by {
                            if k < before.len() {
                                assert(r@.subrange(0, k) =~= before.subrange(0, k));
                                assert(r@[k] == before[k]);
                            } else {
                                assert(r@[k] == c);
                                assert(base.union(r@.subrange(0, k).to_set()) == taken_before);
                            }
                        }
                        assert(r@.to_set() =~= before.to_set().insert(c)) by {
                            assert forall|x: Card| r@.contains(x) <==> before.contains(x) || x == c by {
                                if r@.contains(x) && x != c {
                                    let k = choose|k: int| 0 <= k < r@.len() && r@[k] == x;
                                    assert(before[k] == x);
                                }
                                if before.contains(x) {
                                    let k = choose|k: int| 0 <= k < before.len() && before[k] == x;
                                    assert(r@[k] == x);
                                }
                                if x == c {
                                    assert(r@[before.len() as int] == c);
                                }
                            }
                        }
                        assert(taken@ =~= base.union(r@.to_set()));
                    }
                },
                None => {
                    proof {
                        assert forall|c: Card| hand.contains(c) implies taken@.contains(c) by {
                            assert(!candidate(hand, taken@, c));
                        }
                    }
                    break;
                },
            }
        }
        proof {
            st.my_initial_hand.lemma_finite();
            lemma_pass_facts(st.my_initial_hand@, base, st.round_parameters, shooter, r@, n as int);
        }
        r
    }
}

/// The picks are distinct cards of the hand, and as many as asked for when
/// the hand has that many candidates.
proof fn lemma_pass_facts(hand: Set<Card>, base: Set<Card>, rp: RoundParameters, shooting: bool, r: Seq<Card>, n: int)
    requires
        hand.finite(),
        r.len() <= n,
        forall|k: int|
            0 <= k < r.len() ==> is_pass_pick(
                hand,
                base.union(r.subrange(0, k).to_set()),
                rp,
                shooting,
                #[trigger] r[k],
            ),
        r.len() < n ==> forall|c: Card| hand.contains(c) ==> base.union(r.to_set()).contains(c),
    ensures
        r.no_duplicates(),
        forall|k: int| 0 <= k < r.len() ==> hand.contains(#[trigger] r[k]),
        hand.difference(base).len() >= n ==> r.len() == n,
{
    assert forall|a: int, b: int| 0 <= a < b < r.len() implies r[a] != r[b] by {
        assert(is_pass_pick(hand, base.union(r.subrange(0, b).to_set()), rp, shooting, r[b]));
        assert(r.subrange(0, b)[a] == r[a]);
        assert(r.subrange(0, b).to_set().contains(r[a]));
    }
    assert forall|k: int| 0 <= k < r.len() implies hand.contains(#[trigger] r[k]) by {
        assert(is_pass_pick(hand, base.union(r.subrange(0, k).to_set()), rp, shooting, r[k]));
    }
    if r.len() < n {
        assert(hand.difference(base).subset_of(r.to_set()));
        vstd::seq_lib::seq_to_set_is_finite(r);
        vstd::set_lib::lemma_len_subset(hand.difference(base), r.to_set());
        r.lemma_cardinality_of_set();
    }
}

/// Determinism of play: the contract of `play_card` admits one card only,
/// so the same snapshot and the same engine state give the same card.
pub proof fn lemma_play_choice_unique(name: Seq<char>, shooting: bool, st: GameStatus, r1: Card, r2: Card)
    requires
        is_play_choice(name, shooting, st, r1),
        is_play_choice(name, shooting, st, r2),
    ensures
        r1 == r2,
{
    if !st.my_current_hand@.contains(two_of_clubs()) && r1 != r2 {
        assert(legal(st, r1) && legal(st, r2));
        lemma_key_before_order(
            play_key(name, shooting, st, r1), r1,
            play_key(name, shooting, st, r2), r2,
            play_key(name, shooting, st, r1), r1,
        );
    }
}

proof fn lemma_pick_unique(hand: Set<Card>, taken: Set<Card>, rp: RoundParameters, shooting: bool, c1: Card, c2: Card)
    requires
        is_pass_pick(hand, taken, rp, shooting, c1),
        is_pass_pick(hand, taken, rp, shooting, c2),
    ensures
        c1 == c2,
{
    if c1 != c2 {
        assert(candidate(hand, taken, c1) && candidate(hand, taken, c2));
        lemma_pass_before_order(
            pass_key(shooting, taken, rp, c1), c1,
            pass_key(shooting, taken, rp, c2), c2,
            pass_key(shooting, taken, rp, c1), c1,
        );
    }
}

proof fn lemma_pass_prefix_equal(st: GameStatus, shooting: bool, r1: Seq<Card>, r2: Seq<Card>, k: int)
    requires
        is_pass_choice(st, shooting, r1),
        is_pass_choice(st, shooting, r2),
        0 <= k <= r1.len(),
        k <= r2.len(),
    ensures
        r1.subrange(0, k) == r2.subrange(0, k),
    decreases k,
{
    if k > 0 {
        lemma_pass_prefix_equal(st, shooting, r1, r2, k - 1);
        let taken = st.unplayed().union(r1.subrange(0, k - 1).to_set());
        assert(is_pass_pick(st.my_initial_hand@, taken, st.round_parameters, shooting, r1[k - 1]));
        assert(is_pass_pick(st.my_initial_hand@, st.unplayed().union(r2.subrange(0, k - 1).to_set()), st.round_parameters, shooting, r2[k - 1]));
        lemma_pick_unique(st.my_initial_hand@, taken, st.round_parameters, shooting, r1[k - 1], r2[k - 1]);
        assert(r1.subrange(0, k) =~= r1.subrange(0, k - 1).push(r1[k - 1]));
        assert(r2.subrange(0, k) =~= r2.subrange(0, k - 1).push(r2[k - 1]));
    }
}

/// Determinism of passing: the contract of `pass_cards` admits one sequence
/// only, so the same snapshot and the same engine state give the same cards.
pub proof fn lemma_pass_choice_unique(st: GameStatus, shooting: bool, r1: Seq<Card>, r2: Seq<Card>)
    requires
        is_pass_choice(st, shooting, r1),
        is_pass_choice(st, shooting, r2),
    ensures
        r1 == r2,
{
    lemma_pass_len_le(st, shooting, r1, r2);
    lemma_pass_len_le(st, shooting, r2, r1);
    {
        lemma_pass_prefix_equal(st, shooting, r1, r2, r1.len() as int);
        assert(r1 =~= r1.subrange(0, r1.len() as int));
        assert(r2 =~= r2.subrange(0, r2.len() as int));
    }
}

proof fn lemma_pass_len_le(st: GameStatus, shooting: bool, r1: Seq<Card>, r2: Seq<Card>)
    requires
        is_pass_choice(st, shooting, r1),
        is_pass_choice(st, shooting, r2),
    ensures
        r2.len() <= r1.len(),
{
    if r1.len() < r2.len() {
        let m = r1.len() as int;
        lemma_pass_prefix_equal(st, shooting, r1, r2, m);
        assert(r1.subrange(0, m) =~= r1);
        let c = r2[m];
        assert(is_pass_pick(st.my_initial_hand@, st.unplayed().union(r2.subrange(0, m).to_set()), st.round_parameters, shooting, c));
        assert(st.my_initial_hand@.contains(c));
        assert(st.unplayed().union(r1.to_set()).contains(c));
    }
}

} // verus!
