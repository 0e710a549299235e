//! Point estimates for playing a card: sums of points over sets of cards,
//! chances of winning as exact fractions, and the potential points of a play.
//!
//! Estimates are fractions `(numerator, denominator)` with a positive
//! denominator; a score keeps the estimate in thousandths, truncated toward zero.
use vstd::prelude::*;
use crate::card::{card_at, Card, Rank, Suit, DECK_SIZE};
use crate::card_set::CardSet;
use crate::deal::Deal;
use crate::game_status::{GameParticipant, RoundParameters};
use crate::strategy::rules::{
    can_win, can_win_deal, led_or, nobody_left, still_to_play, void_in, will_win, will_win_deal,
};

verus! {

/// Which cards of a set a sum or a count takes, relative to a reference card.
#[derive(Clone, Copy, Debug, PartialEq, Eq, Structural)]
pub enum Filter {
    /// Every card.
    Any,
    /// Cards of the reference card's suit.
    InSuit,
    /// Cards of the reference card's suit that rank below it.
    InSuitBelow,
    /// Cards of the reference card's suit that do not outrank it.
    InSuitAtMost,
    /// Cards of other suits that carry positive points.
    PositiveOffSuit,
    /// Hearts and the queen of spades.
    Shooting,
}

/// The queen of spades or a heart: the cards that shooting the moon collects.
pub open spec fn is_shooting_card(c: Card) -> bool {
    c.suit == Suit::Heart || (c.suit == Suit::Spade && c.rank == Rank::Queen)
}

pub open spec fn admits(f: Filter, card: Card, rp: RoundParameters, c: Card) -> bool {
    match f {
        Filter::Any => true,
        Filter::InSuit => c.suit == card.suit,
        Filter::InSuitBelow => c.suit == card.suit && c.rank.value() < card.rank.value(),
        Filter::InSuitAtMost => c.suit == card.suit && c.rank.value() <= card.rank.value(),
        Filter::PositiveOffSuit => c.suit != card.suit && rp.points_of(c) > 0,
        Filter::Shooting => is_shooting_card(c),
    }
}

pub open spec fn selects(cards: Set<Card>, f: Filter, card: Card, rp: RoundParameters) -> spec_fn(
    Card,
) -> bool {
    |c: Card| cards.contains(c) && admits(f, card, rp, c)
}

/// Sum of the points of the selected cards among the first `n` of the canonical order.
pub open spec fn points_upto(rp: RoundParameters, keep: spec_fn(Card) -> bool, n: int) -> int
    decreases n,
{
    if n <= 0 {
        0
    } else {
        points_upto(rp, keep, n - 1) + if keep(card_at(n - 1)) {
            rp.points_of(card_at(n - 1))
        } else {
            0
        }
    }
}

/// Number of selected cards among the first `n` of the canonical order.
pub open spec fn count_upto(keep: spec_fn(Card) -> bool, n: int) -> int
    decreases n,
{
    if n <= 0 {
        0
    } else {
        count_upto(keep, n - 1) + if keep(card_at(n - 1)) {
            1int
        } else {
            0
        }
    }
}

/// Total points of the cards of `cards` that `f` admits.
pub open spec fn points_where(cards: Set<Card>, f: Filter, card: Card, rp: RoundParameters) -> int {
    points_upto(rp, selects(cards, f, card, rp), 52)
}

/// Number of cards of `cards` that `f` admits.
pub open spec fn cards_where(cards: Set<Card>, f: Filter, card: Card, rp: RoundParameters) -> int {
    count_upto(selects(cards, f, card, rp), 52)
}

/// The largest magnitude of a sum of points over at most 53 cards.
pub open spec fn points_bound() -> int {
    0x40_0000_0000
}

pub proof fn lemma_points_upto_bounds(rp: RoundParameters, keep: spec_fn(Card) -> bool, n: int)
    requires
        0 <= n,
    ensures
        -n * 0x8000_0000 <= points_upto(rp, keep, n) <= n * 0x8000_0000,
    decreases n,
{
    if n > 0 {
        lemma_points_upto_bounds(rp, keep, n - 1);
    }
}

pub proof fn lemma_count_upto_bounds(keep: spec_fn(Card) -> bool, n: int)
    requires
        0 <= n,
    ensures
        0 <= count_upto(keep, n) <= n,
    decreases n,
{
    if n > 0 {
        lemma_count_upto_bounds(keep, n - 1);
    }
}

/// The selected cards of the same suit that rank below `card` are among those of its suit.
proof fn lemma_count_below_le(cards: Set<Card>, card: Card, rp: RoundParameters, n: int)
    requires
        0 <= n,
    ensures
        count_upto(selects(cards, Filter::InSuitBelow, card, rp), n) <= count_upto(
            selects(cards, Filter::InSuit, card, rp),
            n,
        ),
    decreases n,
{
    if n > 0 {
        lemma_count_below_le(cards, card, rp, n - 1);
    }
}

pub proof fn lemma_where_bounds(cards: Set<Card>, f: Filter, card: Card, rp: RoundParameters)
    ensures
        -points_bound() < points_where(cards, f, card, rp) < points_bound(),
        0 <= cards_where(cards, f, card, rp) <= 52,
        cards_where(cards, Filter::InSuitBelow, card, rp) <= cards_where(
            cards,
            Filter::InSuit,
            card,
            rp,
        ),
{
    lemma_points_upto_bounds(rp, selects(cards, f, card, rp), 52);
    lemma_count_upto_bounds(selects(cards, f, card, rp), 52);
    lemma_count_below_le(cards, card, rp, 52);
}

pub fn admitted(f: Filter, card: &Card, rp: &RoundParameters, c: &Card) -> (r: bool)
    requires
        rp.wf(),
    ensures
        r == admits(f, *card, *rp, *c),
{
    match f {
        Filter::Any => true,
        Filter::InSuit => c.suit == card.suit,
        Filter::InSuitBelow => c.suit == card.suit && c.rank.number() < card.rank.number(),
        Filter::InSuitAtMost => c.suit == card.suit && c.rank.number() <= card.rank.number(),
        Filter::PositiveOffSuit => c.suit != card.suit && rp.points(c) > 0,
        Filter::Shooting => c.suit == Suit::Heart || (c.suit == Suit::Spade && c.rank
            == Rank::Queen),
    }
}

/// Total points of the cards of `cards` that `f` admits.
pub fn sum_where(cards: &CardSet, f: Filter, card: &Card, rp: &RoundParameters) -> (r: i64)
    requires
        cards.wf(),
        rp.wf(),
    ensures
        r == points_where(cards@, f, *card, *rp),
{
    let mut sum: i64 = 0;
    let mut i: usize = 0;
    while i < DECK_SIZE
        invariant
            cards.wf(),
            rp.wf(),
            i <= DECK_SIZE,
            sum == points_upto(*rp, selects(cards@, f, *card, *rp), i as int),
        decreases DECK_SIZE - i,
    {
        proof {
            lemma_points_upto_bounds(*rp, selects(cards@, f, *card, *rp), i as int);
        }
        let c = Card::at(i);
        if cards.contains_at(i) && admitted(f, card, rp, &c) {
            sum = sum + rp.points(&c) as i64;
        }
        i = i + 1;
    }
    sum
}

/// Number of cards of `cards` that `f` admits.
pub fn count_where(cards: &CardSet, f: Filter, card: &Card, rp: &RoundParameters) -> (r: i64)
    requires
        cards.wf(),
        rp.wf(),
    ensures
        r == cards_where(cards@, f, *card, *rp),
{
    let mut n: i64 = 0;
    let mut i: usize = 0;
    while i < DECK_SIZE
        invariant
            cards.wf(),
            rp.wf(),
            i <= DECK_SIZE,
            n == count_upto(selects(cards@, f, *card, *rp), i as int),
        decreases DECK_SIZE - i,
    {
        proof {
            lemma_count_upto_bounds(selects(cards@, f, *card, *rp), i as int);
        }
        let c = Card::at(i);
        if cards.contains_at(i) && admitted(f, card, rp, &c) {
            n = n + 1;
        }
        i = i + 1;
    }
    n
}

/// Division truncated toward zero.
pub open spec fn trunc_div(a: int, b: int) -> int {
    if a >= 0 {
        a / b
    } else {
        -((-a) / b)
    }
}

/// An estimate in thousandths, truncated toward zero.
pub open spec fn scaled(q: (int, int)) -> int {
    trunc_div(1000 * q.0, q.1)
}

pub fn trunc_div_exec(a: i128, b: i128) -> (r: i128)
    requires
        b > 0,
        -0x4000_0000_0000_0000_0000_0000_0000_0000 < a < 0x4000_0000_0000_0000_0000_0000_0000_0000,
    ensures
        r == trunc_div(a as int, b as int),
{
    if a >= 0 {
        ((a as u128) / (b as u128)) as i128
    } else {
        let q = ((-a) as u128) / (b as u128);
        -(q as i128)
    }
}

/// The chance that `card` wins a later trick in its suit: the share of the
/// cards of its suit among `cards` that rank below it, or certainty when
/// there are none.
pub open spec fn chance_of_later_win(card: Card, cards: Set<Card>, rp: RoundParameters) -> (
    int,
    int,
) {
    let n = cards_where(cards, Filter::InSuit, card, rp);
    if n == 0 {
        (1, 1)
    } else {
        (cards_where(cards, Filter::InSuitBelow, card, rp), n)
    }
}

/// The chance that `card` wins the trick in progress: certainty when it will
/// win; when it follows the led suit (or leads) and someone is still to play,
/// the share of the cards of its suit among the unseen cards `remaining` that
/// rank below it, or certainty when none of its suit is unseen; else none.
pub open spec fn chance_of_win(
    card: Card,
    players: Seq<GameParticipant>,
    ip: Option<Deal>,
    remaining: Set<Card>,
    rp: RoundParameters,
) -> (int, int) {
    if will_win_deal(card, players, ip, remaining) {
        (1, 1)
    } else if led_or(ip, card.suit) == card.suit && !nobody_left(players, ip) {
        let n = cards_where(remaining, Filter::InSuit, card, rp);
        if n == 0 {
            (1, 1)
        } else {
            (cards_where(remaining, Filter::InSuitBelow, card, rp), n)
        }
    } else {
        (0, 1)
    }
}

/// A fraction `(a, b)` with `0 <= a <= b`, `1 <= b <= bound`.
pub open spec fn is_chance(q: (int, int), bound: int) -> bool {
    0 <= q.0 <= q.1 && 1 <= q.1 <= bound
}

pub fn chance_of_later_win_exec(card: &Card, cards: &CardSet, rp: &RoundParameters) -> (r: (
    i128,
    i128,
))
    requires
        cards.wf(),
        rp.wf(),
    ensures
        (r.0 as int, r.1 as int) == chance_of_later_win(*card, cards@, *rp),
        is_chance((r.0 as int, r.1 as int), 52),
{
    proof {
        lemma_where_bounds(cards@, Filter::InSuit, *card, *rp);
        lemma_where_bounds(cards@, Filter::InSuitBelow, *card, *rp);
    }
    let n = count_where(cards, Filter::InSuit, card, rp);
    if n == 0 {
        (1, 1)
    } else {
        (count_where(cards, Filter::InSuitBelow, card, rp) as i128, n as i128)
    }
}

pub fn chance_of_win_exec(
    card: &Card,
    nobody: bool,
    players: &Vec<GameParticipant>,
    ip: &Option<Deal>,
    remaining: &CardSet,
    rp: &RoundParameters,
) -> (r: (i128, i128))
    requires
        remaining.wf(),
        rp.wf(),
        nobody == nobody_left(players@, *ip),
    ensures
        (r.0 as int, r.1 as int) == chance_of_win(*card, players@, *ip, remaining@, *rp),
        is_chance((r.0 as int, r.1 as int), 52),
{
    if will_win(card, nobody, ip, remaining) {
        (1, 1)
    } else if led_suit_is(ip, card.suit) && !nobody {
        proof {
            lemma_where_bounds(remaining@, Filter::InSuit, *card, *rp);
            lemma_where_bounds(remaining@, Filter::InSuitBelow, *card, *rp);
        }
        let n = count_where(remaining, Filter::InSuit, card, rp);
        if n == 0 {
            (1, 1)
        } else {
            (count_where(remaining, Filter::InSuitBelow, card, rp) as i128, n as i128)
        }
    } else {
        (0, 1)
    }
}

fn led_suit_is(ip: &Option<Deal>, suit: Suit) -> (r: bool)
    ensures
        r == (led_or(*ip, suit) == suit),
{
    match ip {
        Some(d) => match d.suit {
            Some(s) => s == suit,
            None => true,
        },
        None => true,
    }
}

/// The cards played in the trick in progress.
pub open spec fn dealt_set(ip: Option<Deal>) -> Set<Card> {
    Set::new(|c: Card| ip matches Some(d) && d.has_card(c))
}

/// Some participant still to play in the trick is known to be void in `s`.
pub open spec fn voider(
    players: Seq<GameParticipant>,
    ip: Option<Deal>,
    deals: Seq<Deal>,
    s: Suit,
) -> bool {
    exists|i: int|
        0 <= i < players.len() && #[trigger] still_to_play(players, ip, i) && void_in(
            deals,
            players[i].team_name@,
            s,
        )
}

/// The expected points of winning the trick in progress with `card`, given
/// `remaining`, the cards whose place is unknown and that may still be played
/// into it: the points already in the trick, plus the chance of winning in
/// the suit times the points of the cards of the suit that do not outrank
/// `card` (halved and negated when those are bonus points and the trick
/// already carries points), plus, when a later off-suit loss is a risk, the
/// chance of a later win times the positive points of the other suits.
pub open spec fn potential_points(
    shooting: bool,
    players: Seq<GameParticipant>,
    ip: Option<Deal>,
    deals: Seq<Deal>,
    rp: RoundParameters,
    card: Card,
    remaining: Set<Card>,
) -> (int, int) {
    if !can_win_deal(card, ip) {
        (0, 1)
    } else {
        let dealt = dealt_set(ip);
        let number_dealt = cards_where(dealt, Filter::Any, card, rp);
        let card_points = rp.points_of(card);
        let dealt_points = points_where(dealt, Filter::Any, card, rp);
        let suit_points = card_points + points_where(remaining, Filter::InSuitAtMost, card, rp);
        let other_points = points_where(remaining, Filter::PositiveOffSuit, card, rp);
        let number_of_suit = cards_where(remaining, Filter::InSuit, card, rp);
        let safe_target = 9 + card_points + dealt_points - number_dealt;
        let halve = suit_points < 0 && dealt_points > 2 && number_dealt < 3;
        let (mn, md) = if halve {
            (-1int, 2int)
        } else {
            (1int, 1int)
        };
        let win = if number_dealt < 3 {
            chance_of_win(card, players, ip, remaining, rp)
        } else {
            (0, 1)
        };
        let later = if shooting || voider(players, ip, deals, card.suit) || (number_of_suit
            < safe_target && number_dealt < 3) {
            chance_of_later_win(card, remaining.union(dealt), rp)
        } else {
            (0, 1)
        };
        let den = win.1 * md * later.1;
        (dealt_points * den + win.0 * suit_points * mn * later.1 + later.0 * other_points * win.1
            * md, den)
    }
}

/// The expected cost of keeping `card` for a later trick: its own points,
/// those of lower cards of its suit among `remaining`, and the chance of a
/// later win times the positive points of the other suits.
pub open spec fn later_potential(card: Card, remaining: Set<Card>, rp: RoundParameters) -> (
    int,
    int,
) {
    let later = chance_of_later_win(card, remaining, rp);
    (
        (rp.points_of(card) + points_where(remaining, Filter::InSuitBelow, card, rp)) * later.1
            + later.0 * points_where(remaining, Filter::PositiveOffSuit, card, rp),
        later.1,
    )
}

proof fn lemma_mul_bound(x: int, y: int, bx: int, by_: int)
    requires
        -bx <= x <= bx,
        -by_ <= y <= by_,
    ensures
        -(bx * by_) <= x * y <= bx * by_,
{
    assert(-(bx * by_) <= x * y <= bx * by_) by (nonlinear_arith)
        requires
            -bx <= x <= bx,
            -by_ <= y <= by_,
    ;
}

/// [`later_potential`] in thousandths, truncated toward zero.
pub fn later_potential_scaled(card: &Card, remaining: &CardSet, rp: &RoundParameters) -> (r: i128)
    requires
        remaining.wf(),
        rp.wf(),
    ensures
        r == scaled(later_potential(*card, remaining@, *rp)),
        -0x1000_0000_0000_0000 < r < 0x1000_0000_0000_0000,
{
    proof {
        lemma_where_bounds(remaining@, Filter::InSuitBelow, *card, *rp);
        lemma_where_bounds(remaining@, Filter::PositiveOffSuit, *card, *rp);
    }
    let later = chance_of_later_win_exec(card, remaining, rp);
    let own = rp.points(card) as i128 + sum_where(remaining, Filter::InSuitBelow, card, rp) as i128;
    let other = sum_where(remaining, Filter::PositiveOffSuit, card, rp) as i128;
    proof {
        lemma_mul_bound(own as int, later.1 as int, 0x80_0000_0000, 64);
        lemma_mul_bound(later.0 as int, other as int, 64, 0x40_0000_0000);
    }
    let num = own * later.1 + later.0 * other;
    proof {
        lemma_mul_bound(1000, num as int, 1000, 0x100_0000_0000_0000);
    }
    let r = trunc_div_exec(1000 * num, later.1);
    proof {
        lemma_trunc_div_bound(1000 * num as int, later.1 as int, 0x1000_0000_0000_0000);
    }
    r
}

proof fn lemma_trunc_div_bound(a: int, b: int, bound: int)
    requires
        b >= 1,
        -bound < a < bound,
    ensures
        -bound < trunc_div(a, b) < bound,
{
    if a >= 0 {
        assert(a / b <= a) by (nonlinear_arith)
            requires
                a >= 0,
                b >= 1,
        ;
        assert(a / b >= 0) by (nonlinear_arith)
            requires
                a >= 0,
                b >= 1,
        ;
    } else {
        assert((-a) / b <= -a) by (nonlinear_arith)
            requires
                -a >= 0,
                b >= 1,
        ;
        assert((-a) / b >= 0) by (nonlinear_arith)
            requires
                -a >= 0,
                b >= 1,
        ;
    }
}

/// [`potential_points`] in thousandths, truncated toward zero. `nobody`,
/// `dealt` and `voider_in_suit` are what the snapshot gives for the trick in
/// progress.
pub fn potential_scaled(
    shooting: bool,
    nobody: bool,
    voider_in_suit: bool,
    players: &Vec<GameParticipant>,
    ip: &Option<Deal>,
    deals: &Vec<Deal>,
    rp: &RoundParameters,
    card: &Card,
    remaining: &CardSet,
    dealt: &CardSet,
) -> (r: i128)
    requires
        remaining.wf(),
        dealt.wf(),
        rp.wf(),
        nobody == nobody_left(players@, *ip),
        dealt@ == dealt_set(*ip),
        voider_in_suit == voider(players@, *ip, deals@, card.suit),
    ensures
        r == scaled(potential_points(shooting, players@, *ip, deals@, *rp, *card, remaining@)),
        -0x0400_0000_0000_0000_0000_0000_0000_0000 < r < 0x0400_0000_0000_0000_0000_0000_0000_0000,
{
    if !can_win(card, ip) {
        return 0;
    }
    proof {
        lemma_where_bounds(dealt@, Filter::Any, *card, *rp);
        lemma_where_bounds(remaining@, Filter::InSuitAtMost, *card, *rp);
        lemma_where_bounds(remaining@, Filter::PositiveOffSuit, *card, *rp);
        lemma_where_bounds(remaining@, Filter::InSuit, *card, *rp);
    }
    let number_dealt = count_where(dealt, Filter::Any, card, rp);
    let card_points = rp.points(card) as i64;
    let dealt_points = sum_where(dealt, Filter::Any, card, rp);
    let suit_points = card_points + sum_where(remaining, Filter::InSuitAtMost, card, rp);
    let other_points = sum_where(remaining, Filter::PositiveOffSuit, card, rp);
    let number_of_suit = count_where(remaining, Filter::InSuit, card, rp);
    let safe_target = 9 + card_points + dealt_points - number_dealt;
    let halve = suit_points < 0 && dealt_points > 2 && number_dealt < 3;
    let (mn, md): (i128, i128) = if halve {
        (-1, 2)
    } else {
        (1, 1)
    };
    let win: (i128, i128) = if number_dealt < 3 {
        chance_of_win_exec(card, nobody, players, ip, remaining, rp)
    } else {
        (0, 1)
    };
    let later: (i128, i128) = if shooting || voider_in_suit || (number_of_suit < safe_target
        && number_dealt < 3) {
        let pool = remaining.union(dealt);
        chance_of_later_win_exec(card, &pool, rp)
    } else {
        (0, 1)
    };
    proof {
        lemma_mul_bound(win.1 as int, md as int, 0x2_0000_0000_0000_0000, 2);
        lemma_mul_bound(win.1 * md, later.1 as int, 0x4_0000_0000_0000_0000, 64);
    }
    let den = win.1 * md * later.1;
    proof {
        lemma_mul_bound(dealt_points as int, den as int, 0x40_0000_0000, 0x100_0000_0000_0000_0000);
        lemma_mul_bound(win.0 as int, suit_points as int, 0x2_0000_0000_0000_0000, 0x80_0000_0000);
        lemma_mul_bound(win.0 * suit_points, mn as int, (0x2_0000_0000_0000_0000 * 0x80_0000_0000) as int, 1);
        lemma_mul_bound(win.0 * suit_points * mn, later.1 as int, (0x2_0000_0000_0000_0000 * 0x80_0000_0000) as int, 64);
        lemma_mul_bound(later.0 as int, other_points as int, 64, 0x40_0000_0000);
        lemma_mul_bound(later.0 * other_points, win.1 as int, 0x1000_0000_0000, 0x2_0000_0000_0000_0000);
        lemma_mul_bound(later.0 * other_points * win.1, md as int, (0x1000_0000_0000 * 0x2_0000_0000_0000_0000) as int, 2);
        assert(den >= 1) by (nonlinear_arith)
            requires
                win.1 >= 1,
                md >= 1,
                later.1 >= 1,
                den == win.1 * md * later.1,
        ;
    }
    let num = dealt_points as i128 * den + win.0 * suit_points as i128 * mn * later.1 + later.0
        * other_points as i128 * win.1 * md;
    proof {
        lemma_mul_bound(1000, num as int, 1000, 0x1_0000_0000_0000_0000_0000_0000_0000);
    }
    let r = trunc_div_exec(1000 * num, den);
    proof {
        lemma_trunc_div_bound(1000 * num as int, den as int, 0x0400_0000_0000_0000_0000_0000_0000_0000);
    }
    r
}

} // verus!
