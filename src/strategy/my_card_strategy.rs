//! A plain penalty-ordering strategy: play the legal card that costs the
//! least if it wins the trick, then the one carrying the most points.
use vstd::prelude::*;
use crate::card::{card_at, lemma_card_at_index, lemma_card_index, lemma_index_injective, Card, DECK_SIZE};
use crate::deal::Deal;
use crate::game_status::GameStatus;
use crate::strategy::defensive::{key_before, legal, lemma_key_before_order, led_suit, ScoreKey};
use crate::strategy::simple::{lowest_cards, lowest_three, SIMPLE_PASS_COUNT};

verus! {

/// The penalty-ordering strategy. It keeps no state.
#[derive(Debug)]
pub struct MyCardStrategy;

/// Playing `card` would take the trick so far: nothing has been led, or
/// `card` follows the led suit and outranks every card of it played.
pub open spec fn takes_trick(card: Card, ip: Option<Deal>) -> bool {
    match ip {
        Some(d) => match d.suit {
            Some(s) => card.suit == s && forall|j: int|
                0 <= j < d.deal_cards@.len() && (#[trigger] d.deal_cards@[j]).card.suit == s
                    ==> d.deal_cards@[j].card.rank.value() < card.rank.value(),
            None => true,
        },
        None => true,
    }
}

/// The key by which `card` is ranked: the points it would cost if it takes
/// the trick, the negated points it carries, its rank if it takes the trick,
/// and its negated rank.
pub open spec fn penalty_key(st: GameStatus, card: Card) -> ScoreKey {
    let rp = st.round_parameters;
    let wins = takes_trick(card, st.in_progress_deal);
    let v = card.rank.value();
    (if wins {
        rp.points_of(card)
    } else {
        0
    }, -rp.points_of(card), if wins {
        v
    } else {
        0
    }, -v)
}

fn takes_trick_exec(card: &Card, ip: &Option<Deal>) -> (r: bool)
    ensures
        r == takes_trick(*card, *ip),
{
    match ip {
        Some(d) => match d.suit {
            Some(s) => {
                if card.suit != s {
                    return false;
                }
                let mut j: usize = 0;
                while j < d.deal_cards.len()
                    invariant
                        j <= d.deal_cards@.len(),
                        *ip == Some(*d),
                        d.suit == Some(s),
                        card.suit == s,
                        forall|j2: int|
                            0 <= j2 < j && (#[trigger] d.deal_cards@[j2]).card.suit == s
                                ==> d.deal_cards@[j2].card.rank.value() < card.rank.value(),
                    decreases d.deal_cards@.len() - j,
                {
                    let other = d.deal_cards[j].card;
                    if other.suit == s && other.rank.number() >= card.rank.number() {
                        assert(d.deal_cards@[j as int].card.suit == s);
                        assert(d.deal_cards@[j as int].card.rank.value() >= card.rank.value());
                        return false;
                    }
                    j = j + 1;
                }
                true
            },
            None => true,
        },
        None => true,
    }
}

fn penalty_key_exec(st: &GameStatus, card: &Card) -> (r: (i64, i64, i64, i64))
    requires
        st.wf(),
    ensures
        (r.0 as int, r.1 as int, r.2 as int, r.3 as int) == penalty_key(*st, *card),
{
    let points = st.round_parameters.points(card) as i64;
    let wins = takes_trick_exec(card, &st.in_progress_deal);
    let v = card.rank.number() as i64;
    (if wins {
        points
    } else {
        0
    }, 0 - points, if wins {
        v
    } else {
        0
    }, 0 - v)
}

fn key_before_exec(a: (i64, i64, i64, i64), ca: &Card, b: (i64, i64, i64, i64), cb: &Card) -> (r: bool)
    ensures
        r == key_before(
            (a.0 as int, a.1 as int, a.2 as int, a.3 as int),
            *ca,
            (b.0 as int, b.1 as int, b.2 as int, b.3 as int),
            *cb,
        ),
{
    if a.0 != b.0 {
        a.0 < b.0
    } else if a.1 != b.1 {
        a.1 < b.1
    } else if a.2 != b.2 {
        a.2 < b.2
    } else if a.3 != b.3 {
        a.3 < b.3
    } else {
        ca.precedes(cb)
    }
}

impl MyCardStrategy {
    /// The lowest three cards of the initial hand.
    pub fn pass_cards(&mut self, st: &GameStatus) -> (r: Vec<Card>)
        requires
            st.wf(),
        ensures
            lowest_cards(st.my_initial_hand@, SIMPLE_PASS_COUNT as int, r@),
            r@.no_duplicates(),
            forall|k: int| 0 <= k < r@.len() ==> st.my_initial_hand@.contains(#[trigger] r@[k]),
    {
        lowest_three(&st.my_initial_hand)
    }

    /// The legal card whose penalty key comes first.
    pub fn play_card(&mut self, st: &GameStatus) -> (r: Card)
        requires
            st.wf(),
            st.my_current_hand@.len() > 0,
        ensures
            legal(*st, r),
            forall|c: Card|
                #[trigger] legal(*st, c) && c != r ==> key_before(
                    penalty_key(*st, r),
                    r,
                    penalty_key(*st, c),
                    c,
                ),
    {
        let led = match &st.in_progress_deal {
            Some(d) => d.suit,
            None => None,
        };
        let must_follow = match led {
            Some(t) => holds(st, t),
            None => false,
        };
        let mut found = false;
        let mut best_card = Card::at(0);
        let mut best_key: (i64, i64, i64, i64) = (0, 0, 0, 0);
        let mut i: usize = 0;
        while i < DECK_SIZE
            invariant
                st.wf(),
                i <= DECK_SIZE,
                led == led_suit(*st),
                must_follow == (led matches Some(t) && exists|d: Card| st.my_current_hand@.contains(d) && d.suit == t),
                found ==> legal(*st, best_card) && best_card.index() < i && (best_key.0 as int, best_key.1 as int, best_key.2 as int, best_key.3 as int) == penalty_key(*st, best_card),
                forall|c: Card|
                    #[trigger] legal(*st, c) && c.index() < i && c != best_card ==> found && key_before(
                        penalty_key(*st, best_card),
                        best_card,
                        penalty_key(*st, c),
                        c,
                    ),
                !found ==> forall|c: Card| #[trigger] legal(*st, c) ==> c.index() >= i,
            decreases DECK_SIZE - i,
        {
            let c = Card::at(i);
            let ok = st.my_current_hand.contains_at(i) && match led {
                Some(t) => !must_follow || c.suit == t,
                None => true,
            };
            assert(ok == legal(*st, c));
            if ok {
                let key = penalty_key_exec(st, &c);
                if !found || key_before_exec(key, &c, best_key, &best_card) {
                    proof {
                        assert forall|d: Card|
                            #[trigger] legal(*st, d) && d.index() < i + 1 && d != c implies key_before(
                                penalty_key(*st, c),
                                c,
                                penalty_key(*st, d),
                                d,
                            ) by {
                            lemma_index_injective(d, c);
                            if found && d != best_card {
                                lemma_key_before_order(
                                    penalty_key(*st, c), c,
                                    penalty_key(*st, best_card), best_card,
                                    penalty_key(*st, d), d,
                                );
                            }
                        }
                    }
                    found = true;
                    best_card = c;
                    best_key = key;
                } else {
                    proof {
                        lemma_key_before_order(
                            penalty_key(*st, best_card), best_card,
                            penalty_key(*st, c), c,
                            penalty_key(*st, c), c,
                        );
                        assert forall|d: Card|
                            #[trigger] legal(*st, d) && d.index() < i + 1 && d != best_card implies key_before(
                                penalty_key(*st, best_card),
                                best_card,
                                penalty_key(*st, d),
                                d,
                            ) by {
                            lemma_index_injective(d, c);
                        }
                    }
                }
            } else {
                proof {
                    assert forall|d: Card| #[trigger] legal(*st, d) && d.index() == i implies false by {
                        lemma_index_injective(d, c);
                    }
                }
            }
            i = i + 1;
        }
        proof {
            st.my_current_hand.lemma_finite();
            assert(!(st.my_current_hand@ =~= Set::<Card>::empty()));
            let h = choose|h: Card| st.my_current_hand@.contains(h);
            let w = match led {
                Some(t) => if must_follow {
                    choose|d: Card| st.my_current_hand@.contains(d) && d.suit == t
                } else {
                    h
                },
                None => h,
            };
            assert(legal(*st, w));
            lemma_card_index(w);
        }
        best_card
    }
}

/// Whether the current hand holds a card of suit `t`.
fn holds(st: &GameStatus, t: crate::card::Suit) -> (r: bool)
    requires
        st.wf(),
    ensures
        r == exists|d: Card| st.my_current_hand@.contains(d) && d.suit == t,
{
    let mut i: usize = 0;
    while i < DECK_SIZE
        invariant
            st.wf(),
            i <= DECK_SIZE,
            forall|d: Card| d.index() < i && st.my_current_hand@.contains(d) ==> d.suit != t,
        decreases DECK_SIZE - i,
    {
        if st.my_current_hand.contains_at(i) {
            let c = Card::at(i);
            if c.suit == t {
                return true;
            }
        }
        proof {
            assert forall|d: Card| d.index() == i implies d == card_at(i as int) by {
                lemma_card_at_index(i as int);
                lemma_index_injective(d, card_at(i as int));
            }
        }
        i = i + 1;
    }
    proof {
        assert forall|d: Card| d.index() < 52 by {
            lemma_card_index(d);
        }
    }
    false
}

} // verus!
