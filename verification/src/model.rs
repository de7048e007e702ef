//! The mathematical model of the game: a hand is a sequence of five cards,
//! a pool a sequence of seven. Everything here is specification.

use vstd::prelude::*;
use crate::card::Card;
use crate::hand::{HandType, Standing};

verus! {

/// 1 where the condition holds, 0 where it does not.
pub open spec fn one_if(b: bool) -> int {
    if b { 1 } else { 0 }
}

/// Numeric rank of the card at position `i`.
pub open spec fn rank_at(s: Seq<Card>, i: int) -> int {
    s[i].value.rank()
}

/// How many of the five cards have rank `r`.
pub open spec fn count_rank(s: Seq<Card>, r: int) -> int {
    one_if(rank_at(s, 0) == r) + one_if(rank_at(s, 1) == r) + one_if(rank_at(s, 2) == r) + one_if(
        rank_at(s, 3) == r,
    ) + one_if(rank_at(s, 4) == r)
}

/// How many of the five cards share the rank of the card at position `i`.
#[verifier::opaque]
pub open spec fn group_size(s: Seq<Card>, i: int) -> int {
    count_rank(s, rank_at(s, i))
}

/// Some rank occurs exactly `n` times among the five cards.
pub open spec fn has_group(s: Seq<Card>, n: int) -> bool {
    group_size(s, 0) == n || group_size(s, 1) == n || group_size(s, 2) == n || group_size(s, 3)
        == n || group_size(s, 4) == n
}

/// How many of the five cards belong to a group of exactly two.
pub open spec fn paired_cards(s: Seq<Card>) -> int {
    one_if(group_size(s, 0) == 2) + one_if(group_size(s, 1) == 2) + one_if(group_size(s, 2) == 2)
        + one_if(group_size(s, 3) == 2) + one_if(group_size(s, 4) == 2)
}

/// All five cards have one suit.
pub open spec fn same_suit(s: Seq<Card>) -> bool {
    s[1].suit == s[0].suit && s[2].suit == s[0].suit && s[3].suit == s[0].suit && s[4].suit
        == s[0].suit
}

/// The five ranks are five consecutive ranks: no rank twice, and no two
/// more than four apart. An ace counts high only.
pub open spec fn in_sequence(s: Seq<Card>) -> bool {
    &&& !has_group(s, 2) && !has_group(s, 3) && !has_group(s, 4) && !has_group(s, 5)
    &&& forall|i: int, j: int|
        0 <= i < 5 && 0 <= j < 5 ==> #[trigger] rank_at(s, i) - #[trigger] rank_at(s, j) <= 4
}

/// The category of five cards, whatever their order.
pub open spec fn category(s: Seq<Card>) -> HandType {
    if same_suit(s) && in_sequence(s) {
        HandType::StraightFlush
    } else if has_group(s, 4) {
        HandType::FourOfAKind
    } else if has_group(s, 3) && has_group(s, 2) {
        HandType::FullHouse
    } else if same_suit(s) {
        HandType::Flush
    } else if in_sequence(s) {
        HandType::Straight
    } else if has_group(s, 3) {
        HandType::ThreeOfAKind
    } else if paired_cards(s) == 4 {
        HandType::TwoPair
    } else if has_group(s, 2) {
        HandType::Pair
    } else {
        HandType::HighCard
    }
}

/// What a card weighs when a hand is put in order: the size of its rank
/// group first, its rank second.
#[verifier::opaque]
pub open spec fn weight(s: Seq<Card>, i: int) -> int {
    group_size(s, i) * 16 + rank_at(s, i)
}

/// The card at `j` is placed before the card at `i`: it weighs more, or
/// it weighs the same and already stands earlier.
pub open spec fn precedes(s: Seq<Card>, j: int, i: int) -> bool {
    weight(s, j) > weight(s, i) || (weight(s, j) == weight(s, i) && j < i)
}

/// The position that the card at `i` takes in the ordered hand: the number
/// of cards placed before it.
#[verifier::opaque]
pub open spec fn slot(s: Seq<Card>, i: int) -> int {
    one_if(precedes(s, 0, i)) + one_if(precedes(s, 1, i)) + one_if(precedes(s, 2, i)) + one_if(
        precedes(s, 3, i),
    ) + one_if(precedes(s, 4, i))
}

/// The position in `s` of the card that takes position `p` in the ordered
/// hand.
#[verifier::opaque]
pub open spec fn source(s: Seq<Card>, p: int) -> int {
    if slot(s, 0) == p {
        0
    } else if slot(s, 1) == p {
        1
    } else if slot(s, 2) == p {
        2
    } else if slot(s, 3) == p {
        3
    } else {
        4
    }
}

/// The five cards in hand order: groups before kickers, larger groups
/// first, higher ranks first among groups of one size.
pub open spec fn arranged(s: Seq<Card>) -> Seq<Card> {
    seq![
        s[source(s, 0)],
        s[source(s, 1)],
        s[source(s, 2)],
        s[source(s, 3)],
        s[source(s, 4)],
    ]
}

/// The cards stand in hand order: from each position to the next the
/// weight does not rise, so larger groups come first and, among groups of
/// one size and among kickers, higher ranks come first.
pub open spec fn in_hand_order(s: Seq<Card>) -> bool {
    weight(s, 0) >= weight(s, 1) >= weight(s, 2) >= weight(s, 3) >= weight(s, 4)
}

/// The first position at which two hands differ in rank, 5 if there is none.
pub open spec fn first_gap(a: Seq<Card>, b: Seq<Card>) -> int {
    if rank_at(a, 0) != rank_at(b, 0) {
        0
    } else if rank_at(a, 1) != rank_at(b, 1) {
        1
    } else if rank_at(a, 2) != rank_at(b, 2) {
        2
    } else if rank_at(a, 3) != rank_at(b, 3) {
        3
    } else if rank_at(a, 4) != rank_at(b, 4) {
        4
    } else {
        5
    }
}

/// How a hand of category `ka` with cards `a` stands against one of
/// category `kb` with cards `b`: by category, then by rank at the first
/// position where the two differ. Suits play no part.
pub open spec fn outcome(ka: HandType, a: Seq<Card>, kb: HandType, b: Seq<Card>) -> Standing {
    if ka.level() < kb.level() {
        Standing::Less
    } else if ka.level() > kb.level() {
        Standing::Greater
    } else {
        let g = first_gap(a, b);
        if g == 5 {
            Standing::Equal
        } else if rank_at(a, g) < rank_at(b, g) {
            Standing::Less
        } else {
            Standing::Greater
        }
    }
}

/// Five cards `a`, taken with their own category, beat five cards `b`.
pub open spec fn outranks(a: Seq<Card>, b: Seq<Card>) -> bool {
    outcome(category(a), a, category(b), b) == Standing::Greater
}

/// Two hole cards followed by five table cards.
pub open spec fn pool_of(hole: Seq<Card>, table: Seq<Card>) -> Seq<Card> {
    hole + table
}

/// The position in a seven-card pool of the `k`-th card that is left when
/// the cards at `i` and `j` are taken out (`i < j`).
pub open spec fn kept(k: int, i: int, j: int) -> int {
    if k < i {
        k
    } else if k + 1 < j {
        k + 1
    } else {
        k + 2
    }
}

/// The five cards of a seven-card pool other than those at `i` and `j`.
pub open spec fn without(pool: Seq<Card>, i: int, j: int) -> Seq<Card> {
    seq![
        pool[kept(0, i, j)],
        pool[kept(1, i, j)],
        pool[kept(2, i, j)],
        pool[kept(3, i, j)],
        pool[kept(4, i, j)],
    ]
}

/// `h` is, in hand order, what is left of the pool when two of its cards
/// are taken out.
pub open spec fn drawn_from(pool: Seq<Card>, h: Seq<Card>) -> bool {
    exists|i: int, j: int| 0 <= i < j < 7 && h == arranged(#[trigger] without(pool, i, j))
}

/// The five cards of `h` are those at the five positions `at` of the
/// pool, which are five different positions.
pub open spec fn taken_at(pool: Seq<Card>, at: Seq<int>, h: Seq<Card>) -> bool {
    &&& at.len() == 5
    &&& h.len() == 5
    &&& forall|k: int| 0 <= k < 5 ==> 0 <= #[trigger] at[k] < pool.len() && h[k] == pool[at[k]]
    &&& forall|k: int, l: int|
        0 <= k < 5 && 0 <= l < 5 && k != l ==> #[trigger] at[k] != #[trigger] at[l]
}

/// `h` is a best hand of the pool: five of its seven cards in hand order
/// that no five of the seven beat.
pub open spec fn is_best(pool: Seq<Card>, h: Seq<Card>) -> bool {
    &&& drawn_from(pool, h)
    &&& forall|i: int, j: int|
        0 <= i < j < 7 ==> !outranks(arranged(#[trigger] without(pool, i, j)), h)
}

/// `h` is the pool without the cards at `i` and `j`, in hand order; no
/// five of the seven beat it, and it beats what is left when any earlier
/// two cards are taken out instead (earlier by the first position, then by
/// the second).
pub open spec fn first_best(pool: Seq<Card>, h: Seq<Card>, i: int, j: int) -> bool {
    &&& 0 <= i < j < 7
    &&& h == arranged(without(pool, i, j))
    &&& forall|a: int, b: int|
        0 <= a < b < 7 ==> !outranks(arranged(#[trigger] without(pool, a, b)), h)
    &&& forall|a: int, b: int|
        0 <= a < b < 7 && (a < i || (a == i && b < j)) ==> outranks(
            h,
            arranged(#[trigger] without(pool, a, b)),
        )
}

/// `h` is the hand that is chosen from the pool: a best hand, and among
/// equally strong ones the one that leaves out the earliest two cards.
pub open spec fn is_chosen(pool: Seq<Card>, h: Seq<Card>) -> bool {
    exists|i: int, j: int| #[trigger] first_best(pool, h, i, j)
}

/// The hand that is chosen from the pool.
pub open spec fn chosen(pool: Seq<Card>) -> Seq<Card> {
    choose|h: Seq<Card>| is_chosen(pool, h)
}

/// How many of the seven cards of a pool have rank `r`.
#[verifier::opaque]
pub open spec fn count_in_pool(pool: Seq<Card>, r: int) -> int {
    one_if(rank_at(pool, 0) == r) + one_if(rank_at(pool, 1) == r) + one_if(rank_at(pool, 2) == r)
        + one_if(rank_at(pool, 3) == r) + one_if(rank_at(pool, 4) == r) + one_if(
        rank_at(pool, 5) == r,
    ) + one_if(rank_at(pool, 6) == r)
}

/// The rank at position `k` of the pool occurs exactly twice in the pool.
pub open spec fn is_paired(pool: Seq<Card>, k: int) -> bool {
    count_in_pool(pool, rank_at(pool, k)) == 2
}

/// No card of the pool outside the positions `at` has a higher rank than
/// the last card of `h`.
pub open spec fn rest_is_lower(pool: Seq<Card>, at: Seq<int>, h: Seq<Card>) -> bool {
    forall|u: int|
        0 <= u < 7 && at[0] != u && at[1] != u && at[2] != u && at[3] != u && at[4] != u
            ==> #[trigger] rank_at(pool, u) <= rank_at(h, 4)
}

/// `h` holds the five highest cards of the pool, highest first.
pub open spec fn top_five(pool: Seq<Card>, h: Seq<Card>) -> bool {
    exists|at: Seq<int>|
        {
            &&& #[trigger] taken_at(pool, at, h)
            &&& rank_at(h, 0) >= rank_at(h, 1) >= rank_at(h, 2) >= rank_at(h, 3) >= rank_at(h, 4)
            &&& rest_is_lower(pool, at, h)
        }
}

/// `h` holds the two cards of the highest rank that occurs exactly twice
/// in the pool, then the three highest of the other cards, highest first.
pub open spec fn best_pair(pool: Seq<Card>, h: Seq<Card>) -> bool {
    exists|at: Seq<int>|
        {
            &&& #[trigger] taken_at(pool, at, h)
            &&& rank_at(h, 0) == rank_at(h, 1)
            &&& count_in_pool(pool, rank_at(h, 0)) == 2
            &&& forall|k: int|
                0 <= k < 7 && #[trigger] is_paired(pool, k) ==> rank_at(pool, k) <= rank_at(h, 0)
            &&& rank_at(h, 2) >= rank_at(h, 3) >= rank_at(h, 4)
            &&& rest_is_lower(pool, at, h)
        }
}

/// How many of the seven positions are still free.
#[verifier::opaque]
pub open spec fn free_count(used: Seq<bool>) -> int {
    one_if(!used[0]) + one_if(!used[1]) + one_if(!used[2]) + one_if(!used[3]) + one_if(!used[4])
        + one_if(!used[5]) + one_if(!used[6])
}

/// What a hand is written as: the rank symbols of its five cards in order.
pub open spec fn rendering(s: Seq<Card>) -> Seq<char> {
    seq![
        s[0].value.symbol(),
        s[1].value.symbol(),
        s[2].value.symbol(),
        s[3].value.symbol(),
        s[4].value.symbol(),
    ]
}

} // verus!
