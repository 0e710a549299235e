//! Sets of cards, held as one membership flag per card of the canonical order.
use vstd::prelude::*;
use crate::card::{card_at, card_lt, lemma_card_at_index, lemma_card_index, Card, DECK_SIZE};

verus! {

/// A set of cards.
#[derive(Clone, Debug)]
pub struct CardSet {
    present: Vec<bool>,
}

impl View for CardSet {
    type V = Set<Card>;

    closed spec fn view(&self) -> Set<Card> {
        Set::new(|c: Card| self.present@[c.index()])
    }
}

/// The set of every card.
pub open spec fn full_deck() -> Set<Card> {
    Set::new(|c: Card| true)
}

impl CardSet {
    /// The table has one flag per card.
    pub closed spec fn wf(&self) -> bool {
        self.present@.len() == 52
    }

    /// The members that come before position `i` of the canonical order.
    closed spec fn prefix(&self, i: int) -> Set<Card> {
        Set::new(|c: Card| c.index() < i && self.present@[c.index()])
    }

    proof fn lemma_prefix_step(&self, i: int)
        requires
            self.wf(),
            0 <= i < 52,
        ensures
            self.prefix(i + 1) == (if self.present@[i] {
                self.prefix(i).insert(card_at(i))
            } else {
                self.prefix(i)
            }),
            !self.prefix(i).contains(card_at(i)),
    {
        lemma_card_at_index(i);
        assert forall|c: Card| #[trigger] self.prefix(i + 1).contains(c) <==> (if self.present@[i] {
            self.prefix(i).insert(card_at(i))
        } else {
            self.prefix(i)
        }).contains(c) by {
            lemma_card_index(c);
        }
        assert(self.prefix(i + 1) =~= (if self.present@[i] {
            self.prefix(i).insert(card_at(i))
        } else {
            self.prefix(i)
        }));
    }

    /// Every set of cards is finite, and its size is the number of flags set.
    pub proof fn lemma_finite(&self)
        requires
            self.wf(),
        ensures
            self@.finite(),
            self@.len() <= 52,
    {
        let n = self.count_upto(52);
        self.lemma_count(52);
    }

    closed spec fn count_upto(&self, i: int) -> nat
        decreases i,
    {
        if i <= 0 {
            0
        } else {
            self.count_upto(i - 1) + if self.present@[i - 1] {
                1nat
            } else {
                0nat
            }
        }
    }

    proof fn lemma_count(&self, i: int)
        requires
            self.wf(),
            0 <= i <= 52,
        ensures
            self.prefix(i).finite(),
            self.prefix(i).len() == self.count_upto(i),
            self.count_upto(i) <= i,
            i == 52 ==> self.prefix(i) == self@,
        decreases i,
    {
        if i == 0 {
            assert forall|c: Card| !#[trigger] self.prefix(0).contains(c) by {
                lemma_card_index(c);
            }
            assert(self.prefix(0) =~= Set::empty());
        } else {
            self.lemma_count(i - 1);
            self.lemma_prefix_step(i - 1);
        }
        if i == 52 {
            assert forall|c: Card| #[trigger] self.prefix(52).contains(c) <==> self@.contains(c) by {
                lemma_card_index(c);
            }
            assert(self.prefix(52) =~= self@);
        }
    }

    /// The empty set.
    pub fn new() -> (r: CardSet)
        ensures
            r.wf(),
            r@ == Set::<Card>::empty(),
    {
        let mut present: Vec<bool> = Vec::new();
        let mut i: usize = 0;
        while i < DECK_SIZE
            invariant
                i <= DECK_SIZE,
                present@.len() == i,
                forall|j: int| 0 <= j < i ==> !present@[j],
            decreases DECK_SIZE - i,
        {
            present.push(false);
            i = i + 1;
        }
        let r = CardSet { present };
        assert forall|c: Card| !#[trigger] r@.contains(c) by {
            lemma_card_index(c);
        }
        assert(r@ =~= Set::<Card>::empty());
        r
    }

    /// The set of all 52 cards.
    pub fn full() -> (r: CardSet)
        ensures
            r.wf(),
            r@ == full_deck(),
            r@.len() == 52,
    {
        let mut present: Vec<bool> = Vec::new();
        let mut i: usize = 0;
        while i < DECK_SIZE
            invariant
                i <= DECK_SIZE,
                present@.len() == i,
                forall|j: int| 0 <= j < i ==> present@[j],
            decreases DECK_SIZE - i,
        {
            present.push(true);
            i = i + 1;
        }
        let r = CardSet { present };
        assert forall|c: Card| #[trigger] r@.contains(c) by {
            lemma_card_index(c);
        }
        assert(r@ =~= full_deck());
        proof {
            r.lemma_count_all(52);
            r.lemma_count(52);
        }
        r
    }

    proof fn lemma_count_all(&self, i: int)
        requires
            self.wf(),
            0 <= i <= 52,
            forall|j: int| 0 <= j < 52 ==> self.present@[j],
        ensures
            self.count_upto(i) == i,
        decreases i,
    {
        if i > 0 {
            self.lemma_count_all(i - 1);
        }
    }

    pub fn contains(&self, c: &Card) -> (r: bool)
        requires
            self.wf(),
        ensures
            r == self@.contains(*c),
    {
        self.present[c.position()]
    }

    /// Membership of the card at position `i` of the canonical order.
    pub fn contains_at(&self, i: usize) -> (r: bool)
        requires
            self.wf(),
            i < DECK_SIZE,
        ensures
            r == self@.contains(card_at(i as int)),
    {
        proof {
            lemma_card_at_index(i as int);
        }
        self.present[i]
    }

    pub fn insert(&mut self, c: Card)
        requires
            old(self).wf(),
        ensures
            final(self).wf(),
            final(self)@ == old(self)@.insert(c),
    {
        let i = c.position();
        self.present.set(i, true);
        assert forall|d: Card| #[trigger] self@.contains(d) <==> old(self)@.insert(c).contains(d) by {
            lemma_index_eq(c, d);
        }
        assert(self@ =~= old(self)@.insert(c));
    }

    pub fn remove(&mut self, c: &Card)
        requires
            old(self).wf(),
        ensures
            final(self).wf(),
            final(self)@ == old(self)@.remove(*c),
    {
        let i = c.position();
        self.present.set(i, false);
        assert forall|d: Card| #[trigger] self@.contains(d) <==> old(self)@.remove(*c).contains(d) by {
            lemma_index_eq(*c, d);
        }
        assert(self@ =~= old(self)@.remove(*c));
    }

    /// The number of cards in the set.
    pub fn len(&self) -> (r: usize)
        requires
            self.wf(),
        ensures
            r == self@.len(),
            r <= DECK_SIZE,
    {
        let mut n: usize = 0;
        let mut i: usize = 0;
        while i < DECK_SIZE
            invariant
                self.wf(),
                i <= DECK_SIZE,
                n == self.count_upto(i as int),
                n <= i,
            decreases DECK_SIZE - i,
        {
            if self.present[i] {
                n = n + 1;
            }
            i = i + 1;
        }
        proof {
            self.lemma_count(52);
        }
        n
    }

    pub fn is_empty(&self) -> (r: bool)
        requires
            self.wf(),
        ensures
            r == (self@.len() == 0),
    {
        self.len() == 0
    }

    /// The members, in the canonical order.
    pub fn to_vec(&self) -> (r: Vec<Card>)
        requires
            self.wf(),
        ensures
            forall|c: Card| #[trigger] r@.contains(c) <==> self@.contains(c),
            forall|a: int, b: int| 0 <= a < b < r@.len() ==> card_lt(r@[a], r@[b]),
    {
        let mut r: Vec<Card> = Vec::new();
        let mut i: usize = 0;
        while i < DECK_SIZE
            invariant
                self.wf(),
                i <= DECK_SIZE,
                forall|c: Card| #[trigger] r@.contains(c) <==> (self@.contains(c) && c.index() < i),
                forall|a: int, b: int| 0 <= a < b < r@.len() ==> card_lt(r@[a], r@[b]),
                forall|a: int| 0 <= a < r@.len() ==> (#[trigger] r@[a]).index() < i,
            decreases DECK_SIZE - i,
        {
            if self.contains_at(i) {
                let c = Card::at(i);
                let ghost before = r@;
                r.push(c);
                assert(r@ == before.push(c));
                assert forall|d: Card| #[trigger] r@.contains(d) <==> (self@.contains(d) && d.index()
                    < i + 1) by {
                    lemma_index_eq(c, d);
                    if d != c {
                        if before.contains(d) {
                            let k = choose|k: int| 0 <= k < before.len() && before[k] == d;
                            assert(r@[k] == d);
                        }
                        if r@.contains(d) {
                            let k = choose|k: int| 0 <= k < r@.len() && r@[k] == d;
                            assert(k < before.len());
                            assert(before[k] == d);
                        }
                    } else {
                        assert(r@[before.len() as int] == c);
                    }
                }
            } else {
                assert forall|d: Card| #[trigger] r@.contains(d) <==> (self@.contains(d) && d.index()
                    < i + 1) by {
                    lemma_card_index(d);
                    if d.index() == i {
                        lemma_index_eq(d, card_at(i as int));
                        lemma_card_at_index(i as int);
                    }
                }
            }
            i = i + 1;
        }
        r
    }
    /// The cards in `self` or in `other`.
    pub fn union(&self, other: &CardSet) -> (r: CardSet)
        requires
            self.wf(),
            other.wf(),
        ensures
            r.wf(),
            r@ == self@.union(other@),
    {
        let mut present: Vec<bool> = Vec::new();
        let mut i: usize = 0;
        while i < DECK_SIZE
            invariant
                self.wf(),
                other.wf(),
                i <= DECK_SIZE,
                present@.len() == i,
                forall|j: int| 0 <= j < i ==> present@[j] == (self.present@[j] || other.present@[j]),
            decreases DECK_SIZE - i,
        {
            present.push(self.present[i] || other.present[i]);
            i = i + 1;
        }
        let r = CardSet { present };
        assert forall|c: Card| #[trigger] r@.contains(c) == self@.union(other@).contains(c) by {
            lemma_card_index(c);
        }
        assert(r@ =~= self@.union(other@));
        r
    }
}

impl Card {
    /// The set of all 52 cards.
    pub fn all() -> (r: CardSet)
        ensures
            r.wf(),
            r@ == full_deck(),
            r@.len() == 52,
    {
        CardSet::full()
    }
}

proof fn lemma_index_eq(a: Card, b: Card)
    ensures
        a.index() == b.index() <==> a == b,
        0 <= b.index() < 52,
{
    lemma_card_index(a);
    lemma_card_index(b);
}

} // verus!
