//! What the engine infers from a snapshot: void suits, who is still to play
//! in the current trick, and whether a card can or will win it.
use vstd::prelude::*;
use crate::card::{card_at, lemma_card_at_index, lemma_index_injective, lemma_card_index, Card, Rank, Suit, DECK_SIZE};
use crate::deal::DealCard;
use crate::card_set::CardSet;
use crate::deal::Deal;
use crate::game_status::GameParticipant;
use crate::player::PlayerName;

verus! {

/// A set of suits.
#[derive(Clone, Copy, Debug, PartialEq, Eq, Structural)]
pub struct SuitSet {
    pub club: bool,
    pub diamond: bool,
    pub heart: bool,
    pub spade: bool,
}

impl SuitSet {
    pub open spec fn has(self, s: Suit) -> bool {
        match s {
            Suit::Club => self.club,
            Suit::Diamond => self.diamond,
            Suit::Heart => self.heart,
            Suit::Spade => self.spade,
        }
    }

    pub fn empty() -> (r: SuitSet)
        ensures
            forall|s: Suit| !r.has(s),
    {
        SuitSet { club: false, diamond: false, heart: false, spade: false }
    }

    pub fn contains(&self, s: Suit) -> (r: bool)
        ensures
            r == self.has(s),
    {
        match s {
            Suit::Club => self.club,
            Suit::Diamond => self.diamond,
            Suit::Heart => self.heart,
            Suit::Spade => self.spade,
        }
    }

    pub fn add(&mut self, s: Suit)
        ensures
            forall|t: Suit| final(self).has(t) == (old(self).has(t) || t == s),
    {
        match s {
            Suit::Club => self.club = true,
            Suit::Diamond => self.diamond = true,
            Suit::Heart => self.heart = true,
            Suit::Spade => self.spade = true,
        }
    }
}

/// The participant named `name` is known to be void in `s`: in some completed
/// trick led in `s` they played a card of another suit.
pub open spec fn void_in(deals: Seq<Deal>, name: Seq<char>, s: Suit) -> bool {
    exists|k: int, j: int|
        0 <= k < deals.len() && deals[k].suit == Some(s) && 0 <= j < deals[k].deal_cards@.len()
            && (#[trigger] deals[k].deal_cards@[j]).player_name@ == name
            && deals[k].deal_cards@[j].card.suit != s
}

/// Inferred void suits only grow as completed tricks are added.
pub proof fn lemma_void_monotone(earlier: Seq<Deal>, later: Seq<Deal>, name: Seq<char>, s: Suit)
    requires
        forall|k: int| 0 <= k < earlier.len() ==> later.contains(#[trigger] earlier[k]),
        void_in(earlier, name, s),
    ensures
        void_in(later, name, s),
{
    let (k, j) = choose|k: int, j: int|
        0 <= k < earlier.len() && earlier[k].suit == Some(s) && 0 <= j
            < earlier[k].deal_cards@.len() && (#[trigger] earlier[k].deal_cards@[j]).player_name@
            == name && earlier[k].deal_cards@[j].card.suit != s;
    assert(later.contains(earlier[k]));
    let k2 = choose|k2: int| 0 <= k2 < later.len() && later[k2] == earlier[k];
    assert(later[k2].deal_cards@[j] == earlier[k].deal_cards@[j]);
}

/// The suits in which the participant named `name` is known to be void.
pub fn player_void_suits(deals: &Vec<Deal>, name: &PlayerName) -> (r: SuitSet)
    ensures
        forall|s: Suit| r.has(s) == void_in(deals@, name@, s),
{
    let mut r = SuitSet::empty();
    let mut k: usize = 0;
    while k < deals.len()
        invariant
            k <= deals@.len(),
            forall|s: Suit| r.has(s) == void_in(deals@.subrange(0, k as int), name@, s),
        decreases deals@.len() - k,
    {
        let deal = &deals[k];
        let ghost done = deals@.subrange(0, k as int);
        let ghost next = deals@.subrange(0, k + 1);
        assert(next == done.push(*deal));
        match deal.suit {
            Some(suit) => {
                let mut j: usize = 0;
                while j < deal.deal_cards.len()
                    invariant
                        deal == deals@[k as int],
                        k < deals@.len(),
                        next == deals@.subrange(0, k + 1),
                        done == deals@.subrange(0, k as int),
                        next == done.push(*deal),
                        deal.suit == Some(suit),
                        j <= deal.deal_cards@.len(),
                        forall|s: Suit|
                            r.has(s) == (void_in(done, name@, s) || (s == suit && exists|j2: int|
                                0 <= j2 < j && (#[trigger] deal.deal_cards@[j2]).player_name@
                                    == name@ && deal.deal_cards@[j2].card.suit != suit)),
                    decreases deal.deal_cards@.len() - j,
                {
                    let play = &deal.deal_cards[j];
                    if play.player_name.same(name) && play.card.suit != suit {
                        r.add(suit);
                    }
                    j = j + 1;
                }
                assert forall|s: Suit| r.has(s) == void_in(next, name@, s) by {
                    if void_in(done, name@, s) {
                        let (k1, j1) = choose|k1: int, j1: int|
                            0 <= k1 < done.len() && done[k1].suit == Some(s) && 0 <= j1
                                < done[k1].deal_cards@.len() && (#[trigger] done[k1].deal_cards@[j1]).player_name@
                                == name@ && done[k1].deal_cards@[j1].card.suit != s;
                        assert(next[k1].deal_cards@[j1] == done[k1].deal_cards@[j1]);
                    }
                    if void_in(next, name@, s) {
                        let (k1, j1) = choose|k1: int, j1: int|
                            0 <= k1 < next.len() && next[k1].suit == Some(s) && 0 <= j1
                                < next[k1].deal_cards@.len() && (#[trigger] next[k1].deal_cards@[j1]).player_name@
                                == name@ && next[k1].deal_cards@[j1].card.suit != s;
                        if k1 < k {
                            assert(done[k1].deal_cards@[j1] == next[k1].deal_cards@[j1]);
                        } else {
                            assert(deal.deal_cards@[j1] == next[k1].deal_cards@[j1]);
                        }
                    }
                    if s == suit && exists|j2: int|
                        0 <= j2 < deal.deal_cards@.len() && (#[trigger] deal.deal_cards@[j2]).player_name@
                            == name@ && deal.deal_cards@[j2].card.suit != suit {
                        let j2 = choose|j2: int|
                            0 <= j2 < deal.deal_cards@.len() && (#[trigger] deal.deal_cards@[j2]).player_name@
                                == name@ && deal.deal_cards@[j2].card.suit != suit;
                        assert(next[k as int].deal_cards@[j2] == deal.deal_cards@[j2]);
                    }
                }
            },
            None => {
                assert forall|s: Suit| r.has(s) == void_in(next, name@, s) by {
                    if void_in(done, name@, s) {
                        let (k1, j1) = choose|k1: int, j1: int|
                            0 <= k1 < done.len() && done[k1].suit == Some(s) && 0 <= j1
                                < done[k1].deal_cards@.len() && (#[trigger] done[k1].deal_cards@[j1]).player_name@
                                == name@ && done[k1].deal_cards@[j1].card.suit != s;
                        assert(next[k1].deal_cards@[j1] == done[k1].deal_cards@[j1]);
                    }
                    if void_in(next, name@, s) {
                        let (k1, j1) = choose|k1: int, j1: int|
                            0 <= k1 < next.len() && next[k1].suit == Some(s) && 0 <= j1
                                < next[k1].deal_cards@.len() && (#[trigger] next[k1].deal_cards@[j1]).player_name@
                                == name@ && next[k1].deal_cards@[j1].card.suit != s;
                        assert(done[k1].deal_cards@[j1] == next[k1].deal_cards@[j1]);
                    }
                }
            },
        }
        k = k + 1;
    }
    assert(deals@.subrange(0, deals@.len() as int) == deals@);
    r
}

/// Participant `i` has not yet played in the trick in progress and does not
/// hold the turn.
pub open spec fn still_to_play(players: Seq<GameParticipant>, ip: Option<Deal>, i: int) -> bool {
    !players[i].has_turn && !(ip matches Some(d) && d.played_by(players[i].team_name@))
}

/// No participant is still to play in the trick in progress.
pub open spec fn nobody_left(players: Seq<GameParticipant>, ip: Option<Deal>) -> bool {
    forall|i: int| 0 <= i < players.len() ==> !#[trigger] still_to_play(players, ip, i)
}

/// Some play of `deal` was made by the participant named `name`.
pub fn played_by(deal: &Deal, name: &PlayerName) -> (r: bool)
    ensures
        r == deal.played_by(name@),
{
    let mut j: usize = 0;
    while j < deal.deal_cards.len()
        invariant
            j <= deal.deal_cards@.len(),
            forall|j2: int| 0 <= j2 < j ==> (#[trigger] deal.deal_cards@[j2]).player_name@ != name@,
        decreases deal.deal_cards@.len() - j,
    {
        if deal.deal_cards[j].player_name.same(name) {
            return true;
        }
        j = j + 1;
    }
    false
}

/// For each participant, whether they are still to play in the trick in progress.
pub fn plays_left(players: &Vec<GameParticipant>, ip: &Option<Deal>) -> (r: Vec<bool>)
    ensures
        r@.len() == players@.len(),
        forall|i: int| 0 <= i < players@.len() ==> r@[i] == still_to_play(players@, *ip, i),
{
    let mut r: Vec<bool> = Vec::new();
    let mut i: usize = 0;
    while i < players.len()
        invariant
            i <= players@.len(),
            r@.len() == i,
            forall|i2: int| 0 <= i2 < i ==> r@[i2] == still_to_play(players@, *ip, i2),
        decreases players@.len() - i,
    {
        let player = &players[i];
        let left = !player.has_turn && match ip {
            Some(d) => !played_by(d, &player.team_name),
            None => true,
        };
        r.push(left);
        i = i + 1;
    }
    r
}

/// True when none of the flags is set.
pub fn none_set(flags: &Vec<bool>) -> (r: bool)
    ensures
        r == forall|i: int| 0 <= i < flags@.len() ==> !flags@[i],
{
    let mut i: usize = 0;
    while i < flags.len()
        invariant
            i <= flags@.len(),
            forall|i2: int| 0 <= i2 < i ==> !flags@[i2],
        decreases flags@.len() - i,
    {
        if flags[i] {
            return false;
        }
        i = i + 1;
    }
    true
}

/// The led suit of the trick in progress, or `other` when there is none.
pub open spec fn led_or(ip: Option<Deal>, other: Suit) -> Suit {
    match ip {
        Some(d) => match d.suit {
            Some(s) => s,
            None => other,
        },
        None => other,
    }
}

/// Playing `card` now would make it the best card of the trick so far: no
/// card of the relevant suit that outranks it has been played, and, where a
/// card of that suit has been played, `card` is of that suit too.
pub open spec fn can_win_deal(card: Card, ip: Option<Deal>) -> bool {
    match ip {
        None => true,
        Some(d) => {
            let s = led_or(ip, card.suit);
            &&& (card.suit == s || forall|j: int|
                0 <= j < d.deal_cards@.len() ==> (#[trigger] d.deal_cards@[j]).card.suit != s)
            &&& forall|j: int|
                0 <= j < d.deal_cards@.len() && (#[trigger] d.deal_cards@[j]).card.suit == s
                    ==> d.deal_cards@[j].card.rank.value() < card.rank.value()
        },
    }
}

/// Every card of `suit` in `cards` ranks below `rank`.
pub open spec fn outranks_all(cards: Set<Card>, suit: Suit, rank: Rank) -> bool {
    forall|c: Card| cards.contains(c) && c.suit == suit ==> c.rank.value() < rank.value()
}

/// Playing `card` is sure to win the trick: it can win it, and either
/// nobody is still to play or no card of the relevant suit among `remaining`
/// outranks it.
pub open spec fn will_win_deal(
    card: Card,
    players: Seq<GameParticipant>,
    ip: Option<Deal>,
    remaining: Set<Card>,
) -> bool {
    can_win_deal(card, ip) && (nobody_left(players, ip) || outranks_all(
        remaining,
        led_or(ip, card.suit),
        card.rank,
    ))
}

pub fn led_suit_or(ip: &Option<Deal>, other: Suit) -> (r: Suit)
    ensures
        r == led_or(*ip, other),
{
    match ip {
        Some(d) => match d.suit {
            Some(s) => s,
            None => other,
        },
        None => other,
    }
}

pub fn can_win(card: &Card, ip: &Option<Deal>) -> (r: bool)
    ensures
        r == can_win_deal(*card, *ip),
{
    match ip {
        None => true,
        Some(d) => {
            let s = led_suit_or(ip, card.suit);
            let mut any_of_suit = false;
            let mut all_below = true;
            let mut j: usize = 0;
            while j < d.deal_cards.len()
                invariant
                    j <= d.deal_cards@.len(),
                    s == led_or(*ip, card.suit),
                    any_of_suit == exists|j2: int|
                        0 <= j2 < j && (#[trigger] d.deal_cards@[j2]).card.suit == s,
                    all_below == forall|j2: int|
                        0 <= j2 < j && (#[trigger] d.deal_cards@[j2]).card.suit == s
                            ==> d.deal_cards@[j2].card.rank.value() < card.rank.value(),
                decreases d.deal_cards@.len() - j,
            {
                let other = d.deal_cards[j].card;
                if other.suit == s {
                    any_of_suit = true;
                    if other.rank.number() >= card.rank.number() {
                        all_below = false;
                    }
                }
                j = j + 1;
            }
            (card.suit == s || !any_of_suit) && all_below
        },
    }
}

/// Whether every card of `suit` in `cards` ranks below `rank`.
pub fn outranks(cards: &CardSet, suit: Suit, rank: Rank) -> (r: bool)
    requires
        cards.wf(),
    ensures
        r == outranks_all(cards@, suit, rank),
{
    let mut i: usize = 0;
    while i < DECK_SIZE
        invariant
            cards.wf(),
            i <= DECK_SIZE,
            forall|c: Card|
                c.index() < i && cards@.contains(c) && c.suit == suit ==> c.rank.value()
                    < rank.value(),
        decreases DECK_SIZE - i,
    {
        if cards.contains_at(i) {
            let c = Card::at(i);
            if c.suit == suit && c.rank.number() >= rank.number() {
                return false;
            }
        }
        proof {
            assert forall|d: Card| d.index() == i implies d == card_at(i as int) by {
                lemma_card_at_index(i as int);
                lemma_index_injective(d, card_at(i as int));
            }
        }
        i = i + 1;
    }
    proof {
        assert forall|c: Card| c.index() < 52 by {
            lemma_card_index(c);
        }
    }
    true
}

pub fn will_win(card: &Card, nobody: bool, ip: &Option<Deal>, remaining: &CardSet) -> (r: bool)
    requires
        remaining.wf(),
    ensures
        r == (can_win_deal(*card, *ip) && (nobody || outranks_all(
            remaining@,
            led_or(*ip, card.suit),
            card.rank,
        ))),
{
    can_win(card, ip) && (nobody || outranks(remaining, led_suit_or(ip, card.suit), card.rank))
}

/// The card of the first play by the participant named `name`, from play `j` on.
pub open spec fn first_play(plays: Seq<DealCard>, name: Seq<char>, j: int) -> Option<Card>
    decreases plays.len() - j,
{
    if j < 0 || j >= plays.len() {
        None
    } else if plays[j].player_name@ == name {
        Some(plays[j].card)
    } else {
        first_play(plays, name, j + 1)
    }
}

/// The participant named `name` could still win trick `d`: nothing has been
/// led, or they have not played, or they played the led suit and nobody has
/// played a higher card of it.
pub open spec fn might_win(name: Seq<char>, d: Deal) -> bool {
    match d.suit {
        None => true,
        Some(s) => match first_play(d.deal_cards@, name, 0) {
            None => true,
            Some(c) => c.suit == s && forall|j: int|
                0 <= j < d.deal_cards@.len() && (#[trigger] d.deal_cards@[j]).card.suit == s
                    ==> d.deal_cards@[j].card.rank.value() <= c.rank.value(),
        },
    }
}

pub fn player_might_win_deal(name: &PlayerName, d: &Deal) -> (r: bool)
    ensures
        r == might_win(name@, *d),
{
    match d.suit {
        None => true,
        Some(s) => {
            let mut j: usize = 0;
            while j < d.deal_cards.len()
                invariant
                    j <= d.deal_cards@.len(),
                    d.suit == Some(s),
                    first_play(d.deal_cards@, name@, 0) == first_play(d.deal_cards@, name@, j as int),
                decreases d.deal_cards@.len() - j,
            {
                if d.deal_cards[j].player_name.same(name) {
                    let mine = d.deal_cards[j].card;
                    assert(first_play(d.deal_cards@, name@, 0) == Some(mine));
                    if mine.suit != s {
                        return false;
                    }
                    let mut k: usize = 0;
                    while k < d.deal_cards.len()
                        invariant
                            k <= d.deal_cards@.len(),
                            mine.suit == s,
                            d.suit == Some(s),
                            first_play(d.deal_cards@, name@, 0) == Some(mine),
                            forall|k2: int|
                                0 <= k2 < k && (#[trigger] d.deal_cards@[k2]).card.suit == s
                                    ==> d.deal_cards@[k2].card.rank.value() <= mine.rank.value(),
                        decreases d.deal_cards@.len() - k,
                    {
                        let other = d.deal_cards[k].card;
                        if other.suit == s && other.rank.number() > mine.rank.number() {
                            return false;
                        }
                        k = k + 1;
                    }
                    return true;
                }
                assert(first_play(d.deal_cards@, name@, j as int) == first_play(
                    d.deal_cards@,
                    name@,
                    j + 1,
                ));
                j = j + 1;
            }
            assert(first_play(d.deal_cards@, name@, j as int) == None::<Card>);
            true
        },
    }
}

} // verus!
