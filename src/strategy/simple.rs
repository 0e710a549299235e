//! The simple strategy: pass the lowest cards, play the lowest legal card.
use vstd::prelude::*;
use crate::card::{card_at, card_lt, lemma_card_at_index, lemma_card_index, lemma_index_injective, Card, DECK_SIZE};
use crate::card_set::CardSet;
use crate::game_status::GameStatus;
use crate::player::PlayerName;
use crate::strategy::defensive::led_suit;

verus! {

/// Number of cards the simple strategy passes.
pub const SIMPLE_PASS_COUNT: usize = 3;

/// The simple strategy.
#[derive(Debug)]
pub struct SimpleCardStrategy {
    player_name: PlayerName,
}

/// `r` lists, in the canonical order, the lowest cards of `hand`, up to `n` of them.
pub open spec fn lowest_cards(hand: Set<Card>, n: int, r: Seq<Card>) -> bool {
    &&& r.len() <= n
    &&& forall|k: int| 0 <= k < r.len() ==> hand.contains(#[trigger] r[k])
    &&& forall|a: int, b: int| 0 <= a < b < r.len() ==> card_lt(r[a], r[b])
    &&& forall|c: Card|
        hand.contains(c) && !r.contains(c) ==> r.len() == n && forall|k: int|
            0 <= k < r.len() ==> card_lt(#[trigger] r[k], c)
}

/// The card the simple strategy plays: the lowest card of the led suit when
/// the hand holds one; otherwise the highest card when a suit was led, and
/// the lowest card when none was.
pub open spec fn simple_play(st: GameStatus, r: Card) -> bool {
    let hand = st.my_current_hand@;
    match led_suit(st) {
        Some(t) => if exists|d: Card| hand.contains(d) && d.suit == t {
            hand.contains(r) && r.suit == t && forall|c: Card|
                hand.contains(c) && c.suit == t && c != r ==> card_lt(r, c)
        } else {
            hand.contains(r) && forall|c: Card| hand.contains(c) && c != r ==> card_lt(c, r)
        },
        None => hand.contains(r) && forall|c: Card| hand.contains(c) && c != r ==> card_lt(r, c),
    }
}

impl SimpleCardStrategy {
    /// The name of the participant this strategy plays for.
    pub closed spec fn player(&self) -> Seq<char> {
        self.player_name@
    }

    pub fn new(player_name: PlayerName) -> (r: SimpleCardStrategy)
        ensures
            r.player() == player_name@,
    {
        SimpleCardStrategy { player_name }
    }

    pub fn player_name(&self) -> (r: &PlayerName)
        ensures
            r@ == self.player(),
    {
        &self.player_name
    }

    /// The lowest three cards of the initial hand.
    pub fn pass_cards(&mut self, st: &GameStatus) -> (r: Vec<Card>)
        requires
            st.wf(),
        ensures
            lowest_cards(st.my_initial_hand@, SIMPLE_PASS_COUNT as int, r@),
            r@.no_duplicates(),
            forall|k: int| 0 <= k < r@.len() ==> st.my_initial_hand@.contains(#[trigger] r@[k]),
    {
        lowest_three(&st.my_initial_hand)
    }

    /// The lowest card of the led suit; failing that, the highest card when a
    /// suit was led, or the lowest card when none was.
    pub fn play_card(&mut self, st: &GameStatus) -> (r: Card)
        requires
            st.wf(),
            st.my_current_hand@.len() > 0,
        ensures
            simple_play(*st, r),
            st.my_current_hand@.contains(r),
    {
        let hand = &st.my_current_hand;
        let led = match &st.in_progress_deal {
            Some(d) => d.suit,
            None => None,
        };
        proof {
            hand.lemma_finite();
            assert(!(hand@ =~= Set::<Card>::empty()));
        }
        let ghost some_card = choose|h: Card| hand@.contains(h);
        match led {
            Some(t) => {
                match lowest_where(hand, Some(t)) {
                    Some(c) => c,
                    None => {
                        let c = highest(hand);
                        c
                    },
                }
            },
            None => {
                match lowest_where(hand, None) {
                    Some(c) => c,
                    None => {
                        proof {
                            lemma_card_index(some_card);
                        }
                        Card::at(0)
                    },
                }
            },
        }
    }
}

/// The lowest three cards of `hand`, in the canonical order.
pub fn lowest_three(hand: &CardSet) -> (r: Vec<Card>)
    requires
        hand.wf(),
    ensures
        lowest_cards(hand@, SIMPLE_PASS_COUNT as int, r@),
        r@.no_duplicates(),
        forall|k: int| 0 <= k < r@.len() ==> hand@.contains(#[trigger] r@[k]),
{
    let mut r: Vec<Card> = Vec::new();
    let mut i: usize = 0;
    while i < DECK_SIZE && r.len() < SIMPLE_PASS_COUNT
        invariant
            hand.wf(),
            i <= DECK_SIZE,
            r@.len() <= SIMPLE_PASS_COUNT,
            forall|k: int| 0 <= k < r@.len() ==> hand@.contains(#[trigger] r@[k]) && r@[k].index() < i,
            forall|a: int, b: int| 0 <= a < b < r@.len() ==> card_lt(r@[a], r@[b]),
            forall|c: Card| hand@.contains(c) && c.index() < i ==> r@.contains(c),
        decreases DECK_SIZE - i,
    {
        if hand.contains_at(i) {
            let c = Card::at(i);
            let ghost before = r@;
            r.push(c);
            proof {
                assert forall|d: Card| hand@.contains(d) && d.index() < i + 1 implies r@.contains(d) by {
                    lemma_index_injective(d, c);
                    if d == c {
                        assert(r@[before.len() as int] == c);
                    } else {
                        let k = choose|k: int| 0 <= k < before.len() && before[k] == d;
                        assert(r@[k] == d);
                    }
                }
            }
        } else {
            proof {
                assert forall|d: Card| hand@.contains(d) && d.index() == i implies false by {
                    lemma_card_at_index(i as int);
                    lemma_index_injective(d, card_at(i as int));
                }
            }
        }
        i = i + 1;
    }
    proof {
        assert forall|c: Card| hand@.contains(c) && !r@.contains(c) implies r@.len() == SIMPLE_PASS_COUNT
            && forall|k: int| 0 <= k < r@.len() ==> card_lt(#[trigger] r@[k], c) by {
            lemma_card_index(c);
        }
        assert forall|a: int, b: int| 0 <= a < r@.len() && 0 <= b < r@.len() && a != b implies r@[a] != r@[b] by {
            if a < b {
                assert(card_lt(r@[a], r@[b]));
            } else {
                assert(card_lt(r@[b], r@[a]));
            }
        }
    }
    r
}


/// The lowest card of `hand`, of suit `t` when given.
fn lowest_where(hand: &CardSet, t: Option<crate::card::Suit>) -> (r: Option<Card>)
    requires
        hand.wf(),
    ensures
        r matches Some(c) ==> hand@.contains(c) && (t matches Some(s) ==> c.suit == s) && forall|d: Card|
            hand@.contains(d) && (t matches Some(s) ==> d.suit == s) && d != c ==> card_lt(c, d),
        r is None ==> forall|d: Card| hand@.contains(d) ==> (t matches Some(s) && d.suit != s),
{
    let mut i: usize = 0;
    while i < DECK_SIZE
        invariant
            hand.wf(),
            i <= DECK_SIZE,
            forall|d: Card| hand@.contains(d) && d.index() < i ==> (t matches Some(s) && d.suit != s),
        decreases DECK_SIZE - i,
    {
        let c = Card::at(i);
        let fits = match t {
            Some(s) => c.suit == s,
            None => true,
        };
        if hand.contains_at(i) && fits {
            proof {
                assert forall|d: Card|
                    hand@.contains(d) && (t matches Some(s) ==> d.suit == s) && d != c implies card_lt(c, d) by {
                    lemma_index_injective(d, c);
                }
            }
            return Some(c);
        }
        proof {
            assert forall|d: Card| hand@.contains(d) && d.index() == i implies (t matches Some(s) && d.suit != s) by {
                lemma_index_injective(d, c);
            }
        }
        i = i + 1;
    }
    proof {
        assert forall|d: Card| d.index() < 52 by {
            lemma_card_index(d);
        }
    }
    None
}

/// The highest card of a non-empty `hand`.
fn highest(hand: &CardSet) -> (r: Card)
    requires
        hand.wf(),
        exists|d: Card| hand@.contains(d),
    ensures
        hand@.contains(r),
        forall|d: Card| hand@.contains(d) && d != r ==> card_lt(d, r),
{
    let mut i: usize = DECK_SIZE;
    while i > 0
        invariant
            hand.wf(),
            i <= DECK_SIZE,
            exists|d: Card| hand@.contains(d),
            forall|d: Card| hand@.contains(d) ==> d.index() < i,
        decreases i,
    {
        let c = Card::at(i - 1);
        if hand.contains_at(i - 1) {
            proof {
                assert forall|d: Card| hand@.contains(d) && d != c implies card_lt(d, c) by {
                    lemma_index_injective(d, c);
                }
            }
            return c;
        }
        proof {
            assert forall|d: Card| hand@.contains(d) implies d.index() < i - 1 by {
                lemma_index_injective(d, c);
            }
        }
        i = i - 1;
    }
    proof {
        let d = choose|d: Card| hand@.contains(d);
        lemma_card_index(d);
    }
    Card::at(0)
}

} // verus!
