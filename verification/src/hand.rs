//! Five-card hands: finding their category, putting their cards in order,
//! comparing two of them, and choosing the best one that seven cards can
//! form.

use vstd::prelude::*;
use vstd::string::*;
use crate::card::{Card, CardValue};
use crate::laws::{
    law_arranged_in_hand_order, law_category_ignores_order, law_chosen_hand_unique,
    law_compare_antisymmetric, law_compare_reflexive, law_compare_transitive,
};
use crate::model::{
    arranged, best_pair, category, chosen, count_in_pool, count_rank, first_best, free_count,
    group_size, has_group, in_hand_order, in_sequence, is_best, is_chosen, is_paired, kept,
    one_if, outcome, outranks, paired_cards, pool_of, rank_at, rendering, rest_is_lower, slot,
    source, taken_at, top_five, weight, without,
};

verus! {

/// The nine categories, weakest first.
#[derive(Clone, Copy, Debug, PartialEq, Eq, Structural)]
pub enum HandType {
    HighCard,
    Pair,
    TwoPair,
    ThreeOfAKind,
    Straight,
    Flush,
    FullHouse,
    FourOfAKind,
    StraightFlush,
}

/// How one hand stands against another.
#[derive(Clone, Copy, Debug, PartialEq, Eq, Structural)]
pub enum Standing {
    Less,
    Equal,
    Greater,
}

impl HandType {
    /// Position in the ranking of categories, 0 for a high card up to 8 for
    /// a straight flush.
    pub open spec fn level(self) -> int {
        match self {
            HandType::HighCard => 0,
            HandType::Pair => 1,
            HandType::TwoPair => 2,
            HandType::ThreeOfAKind => 3,
            HandType::Straight => 4,
            HandType::Flush => 5,
            HandType::FullHouse => 6,
            HandType::FourOfAKind => 7,
            HandType::StraightFlush => 8,
        }
    }

    /// The category's name in upper snake case.
    pub open spec fn label(self) -> Seq<char> {
        match self {
            HandType::HighCard => "HIGH_CARD"@,
            HandType::Pair => "PAIR"@,
            HandType::TwoPair => "TWO_PAIR"@,
            HandType::ThreeOfAKind => "THREE_OF_A_KIND"@,
            HandType::Straight => "STRAIGHT"@,
            HandType::Flush => "FLUSH"@,
            HandType::FullHouse => "FULL_HOUSE"@,
            HandType::FourOfAKind => "FOUR_OF_A_KIND"@,
            HandType::StraightFlush => "STRAIGHT_FLUSH"@,
        }
    }

    /// Position in the ranking of categories as a machine integer.
    pub fn strength(self) -> (r: u8)
        ensures
            r as int == self.level(),
    {
        match self {
            HandType::HighCard => 0,
            HandType::Pair => 1,
            HandType::TwoPair => 2,
            HandType::ThreeOfAKind => 3,
            HandType::Straight => 4,
            HandType::Flush => 5,
            HandType::FullHouse => 6,
            HandType::FourOfAKind => 7,
            HandType::StraightFlush => 8,
        }
    }

    /// The category's name in upper snake case.
    pub fn name(self) -> (r: &'static str)
        ensures
            r@ == self.label(),
    {
        match self {
            HandType::HighCard => "HIGH_CARD",
            HandType::Pair => "PAIR",
            HandType::TwoPair => "TWO_PAIR",
            HandType::ThreeOfAKind => "THREE_OF_A_KIND",
            HandType::Straight => "STRAIGHT",
            HandType::Flush => "FLUSH",
            HandType::FullHouse => "FULL_HOUSE",
            HandType::FourOfAKind => "FOUR_OF_A_KIND",
            HandType::StraightFlush => "STRAIGHT_FLUSH",
        }
    }
}

// ---------------------------------------------------------------------------
// Executable counterparts on five cards.
// ---------------------------------------------------------------------------

fn tally(cards: &[Card; 5], r: u8) -> (n: u8)
    ensures
        n as int == count_rank(cards@, r as int),
        n <= 5,
{
    let mut n: u8 = 0;
    if cards[0].value.number() == r {
        n = n + 1;
    }
    if cards[1].value.number() == r {
        n = n + 1;
    }
    if cards[2].value.number() == r {
        n = n + 1;
    }
    if cards[3].value.number() == r {
        n = n + 1;
    }
    if cards[4].value.number() == r {
        n = n + 1;
    }
    n
}

fn group_sizes(cards: &[Card; 5]) -> (g: [u8; 5])
    ensures
        forall|i: int| 0 <= i < 5 ==> g@[i] as int == #[trigger] group_size(cards@, i),
        forall|i: int| 0 <= i < 5 ==> 1 <= #[trigger] g@[i] <= 5,
{
    reveal(group_size);
    [
        tally(cards, cards[0].value.number()),
        tally(cards, cards[1].value.number()),
        tally(cards, cards[2].value.number()),
        tally(cards, cards[3].value.number()),
        tally(cards, cards[4].value.number()),
    ]
}

fn holds(g: &[u8; 5], n: u8) -> (r: bool)
    ensures
        r == (g@[0] == n || g@[1] == n || g@[2] == n || g@[3] == n || g@[4] == n),
{
    g[0] == n || g[1] == n || g[2] == n || g[3] == n || g[4] == n
}

fn is_run(cards: &[Card; 5], g: &[u8; 5]) -> (run: bool)
    requires
        forall|i: int| 0 <= i < 5 ==> g@[i] as int == #[trigger] group_size(cards@, i),
    ensures
        run == in_sequence(cards@),
{
    let r0: u8 = cards[0].value.number();
    let r1: u8 = cards[1].value.number();
    let r2: u8 = cards[2].value.number();
    let r3: u8 = cards[3].value.number();
    let r4: u8 = cards[4].value.number();
    let mut hi: u8 = r0;
    let mut lo: u8 = r0;
    if r1 > hi {
        hi = r1;
    }
    if r2 > hi {
        hi = r2;
    }
    if r3 > hi {
        hi = r3;
    }
    if r4 > hi {
        hi = r4;
    }
    if r1 < lo {
        lo = r1;
    }
    if r2 < lo {
        lo = r2;
    }
    if r3 < lo {
        lo = r3;
    }
    if r4 < lo {
        lo = r4;
    }
    let single: bool = !holds(g, 2) && !holds(g, 3) && !holds(g, 4) && !holds(g, 5);
    proof {
        let s = cards@;
        assert(rank_at(s, 0) == r0 as int);
        assert(rank_at(s, 1) == r1 as int);
        assert(rank_at(s, 2) == r2 as int);
        assert(rank_at(s, 3) == r3 as int);
        assert(rank_at(s, 4) == r4 as int);
        assert(group_size(s, 0) == g@[0] as int);
        assert(group_size(s, 1) == g@[1] as int);
        assert(group_size(s, 2) == g@[2] as int);
        assert(group_size(s, 3) == g@[3] as int);
        assert(group_size(s, 4) == g@[4] as int);
        assert(single == (!has_group(s, 2) && !has_group(s, 3) && !has_group(s, 4) && !has_group(
            s,
            5,
        )));
        if hi - lo <= 4 {
            assert forall|i: int, j: int| 0 <= i < 5 && 0 <= j < 5 implies #[trigger] rank_at(s, i)
                - #[trigger] rank_at(s, j) <= 4 by {
                assert(lo as int <= rank_at(s, i) <= hi as int);
                assert(lo as int <= rank_at(s, j) <= hi as int);
            }
        }
    }
    single && hi - lo <= 4
}

fn count_paired(cards: &[Card; 5], g: &[u8; 5]) -> (n: u8)
    requires
        forall|i: int| 0 <= i < 5 ==> g@[i] as int == #[trigger] group_size(cards@, i),
    ensures
        n as int == paired_cards(cards@),
{
    proof {
        let s = cards@;
        assert(group_size(s, 0) == g@[0] as int);
        assert(group_size(s, 1) == g@[1] as int);
        assert(group_size(s, 2) == g@[2] as int);
        assert(group_size(s, 3) == g@[3] as int);
        assert(group_size(s, 4) == g@[4] as int);
    }
    let mut n: u8 = 0;
    if g[0] == 2 {
        n = n + 1;
    }
    if g[1] == 2 {
        n = n + 1;
    }
    if g[2] == 2 {
        n = n + 1;
    }
    if g[3] == 2 {
        n = n + 1;
    }
    if g[4] == 2 {
        n = n + 1;
    }
    n
}

fn has_size(cards: &[Card; 5], g: &[u8; 5], n: u8) -> (r: bool)
    requires
        forall|i: int| 0 <= i < 5 ==> g@[i] as int == #[trigger] group_size(cards@, i),
    ensures
        r == has_group(cards@, n as int),
{
    proof {
        let s = cards@;
        assert(group_size(s, 0) == g@[0] as int);
        assert(group_size(s, 1) == g@[1] as int);
        assert(group_size(s, 2) == g@[2] as int);
        assert(group_size(s, 3) == g@[3] as int);
        assert(group_size(s, 4) == g@[4] as int);
    }
    holds(g, n)
}

/// The category of five cards.
pub fn classify(cards: &[Card; 5]) -> (kind: HandType)
    ensures
        kind == category(cards@),
{
    let g: [u8; 5] = group_sizes(cards);
    let flush: bool = cards[1].suit == cards[0].suit && cards[2].suit == cards[0].suit
        && cards[3].suit == cards[0].suit && cards[4].suit == cards[0].suit;
    let run: bool = is_run(cards, &g);
    let four: bool = has_size(cards, &g, 4);
    let three: bool = has_size(cards, &g, 3);
    let two: bool = has_size(cards, &g, 2);
    let paired: u8 = count_paired(cards, &g);
    if flush && run {
        HandType::StraightFlush
    } else if four {
        HandType::FourOfAKind
    } else if three && two {
        HandType::FullHouse
    } else if flush {
        HandType::Flush
    } else if run {
        HandType::Straight
    } else if three {
        HandType::ThreeOfAKind
    } else if paired == 4 {
        HandType::TwoPair
    } else if two {
        HandType::Pair
    } else {
        HandType::HighCard
    }
}

fn leads(w: &[u8; 5], j: usize, i: usize) -> (r: bool)
    requires
        j < 5,
        i < 5,
    ensures
        r == (w@[j as int] > w@[i as int] || (w@[j as int] == w@[i as int] && j < i)),
{
    w[j] > w[i] || (w[j] == w[i] && j < i)
}

fn slot_of(w: &[u8; 5], i: usize) -> (p: u8)
    requires
        i < 5,
    ensures
        p <= 5,
        p as int == one_if(w@[0] > w@[i as int] || (w@[0] == w@[i as int] && 0 < i)) + one_if(
            w@[1] > w@[i as int] || (w@[1] == w@[i as int] && 1 < i),
        ) + one_if(w@[2] > w@[i as int] || (w@[2] == w@[i as int] && 2 < i)) + one_if(
            w@[3] > w@[i as int] || (w@[3] == w@[i as int] && 3 < i),
        ) + one_if(w@[4] > w@[i as int] || (w@[4] == w@[i as int] && 4 < i)),
{
    let mut p: u8 = 0;
    if leads(w, 0, i) {
        p = p + 1;
    }
    if leads(w, 1, i) {
        p = p + 1;
    }
    if leads(w, 2, i) {
        p = p + 1;
    }
    if leads(w, 3, i) {
        p = p + 1;
    }
    if leads(w, 4, i) {
        p = p + 1;
    }
    p
}

fn weights(cards: &[Card; 5]) -> (w: [u8; 5])
    ensures
        forall|i: int| 0 <= i < 5 ==> w@[i] as int == #[trigger] weight(cards@, i),
{
    let g: [u8; 5] = group_sizes(cards);
    reveal(weight);
    [
        g[0] * 16 + cards[0].value.number(),
        g[1] * 16 + cards[1].value.number(),
        g[2] * 16 + cards[2].value.number(),
        g[3] * 16 + cards[3].value.number(),
        g[4] * 16 + cards[4].value.number(),
    ]
}

fn slots_of(cards: &[Card; 5]) -> (slots: [u8; 5])
    ensures
        forall|i: int| 0 <= i < 5 ==> slots@[i] as int == #[trigger] slot(cards@, i),
{
    let w: [u8; 5] = weights(cards);
    proof {
        reveal(slot);
        assert(weight(cards@, 0) == w@[0] as int);
        assert(weight(cards@, 1) == w@[1] as int);
        assert(weight(cards@, 2) == w@[2] as int);
        assert(weight(cards@, 3) == w@[3] as int);
        assert(weight(cards@, 4) == w@[4] as int);
    }
    let s0: u8 = slot_of(&w, 0);
    assert(s0 as int == slot(cards@, 0));
    let s1: u8 = slot_of(&w, 1);
    assert(s1 as int == slot(cards@, 1));
    let s2: u8 = slot_of(&w, 2);
    assert(s2 as int == slot(cards@, 2));
    let s3: u8 = slot_of(&w, 3);
    assert(s3 as int == slot(cards@, 3));
    let s4: u8 = slot_of(&w, 4);
    assert(s4 as int == slot(cards@, 4));
    [s0, s1, s2, s3, s4]
}

fn source_of(cards: &[Card; 5], slots: &[u8; 5], p: u8) -> (i: usize)
    requires
        forall|k: int| 0 <= k < 5 ==> slots@[k] as int == #[trigger] slot(cards@, k),
    ensures
        i < 5,
        i as int == source(cards@, p as int),
{
    proof {
        reveal(source);
        assert(slot(cards@, 0) == slots@[0] as int);
        assert(slot(cards@, 1) == slots@[1] as int);
        assert(slot(cards@, 2) == slots@[2] as int);
        assert(slot(cards@, 3) == slots@[3] as int);
    }
    if slots[0] == p {
        0
    } else if slots[1] == p {
        1
    } else if slots[2] == p {
        2
    } else if slots[3] == p {
        3
    } else {
        4
    }
}

/// Puts five cards in hand order.
pub fn arrange(cards: &[Card; 5]) -> (r: [Card; 5])
    ensures
        r@ == arranged(cards@),
{
    let slots: [u8; 5] = slots_of(cards);
    let r: [Card; 5] = [
        cards[source_of(cards, &slots, 0)],
        cards[source_of(cards, &slots, 1)],
        cards[source_of(cards, &slots, 2)],
        cards[source_of(cards, &slots, 3)],
        cards[source_of(cards, &slots, 4)],
    ];
    assert(r@ =~= arranged(cards@));
    r
}

fn keep(k: usize, i: usize, j: usize) -> (r: usize)
    requires
        k < 5,
        i < j < 7,
    ensures
        r < 7,
        r as int == kept(k as int, i as int, j as int),
{
    if k < i {
        k
    } else if k + 1 < j {
        k + 1
    } else {
        k + 2
    }
}

fn leave_out(pool: &[Card; 7], i: usize, j: usize) -> (r: [Card; 5])
    requires
        i < j < 7,
    ensures
        r@ == without(pool@, i as int, j as int),
{
    let r: [Card; 5] = [
        pool[keep(0, i, j)],
        pool[keep(1, i, j)],
        pool[keep(2, i, j)],
        pool[keep(3, i, j)],
        pool[keep(4, i, j)],
    ];
    assert(r@ =~= without(pool@, i as int, j as int));
    r
}

fn symbol_str(v: CardValue) -> (r: &'static str)
    ensures
        r@.len() == 1,
        r@[0] == v.symbol(),
{
    proof {
        reveal_strlit("2");
        reveal_strlit("3");
        reveal_strlit("4");
        reveal_strlit("5");
        reveal_strlit("6");
        reveal_strlit("7");
        reveal_strlit("8");
        reveal_strlit("9");
        reveal_strlit("T");
        reveal_strlit("J");
        reveal_strlit("Q");
        reveal_strlit("K");
        reveal_strlit("A");
    }
    match v {
        CardValue::Value2 => "2",
        CardValue::Value3 => "3",
        CardValue::Value4 => "4",
        CardValue::Value5 => "5",
        CardValue::Value6 => "6",
        CardValue::Value7 => "7",
        CardValue::Value8 => "8",
        CardValue::Value9 => "9",
        CardValue::ValueT => "T",
        CardValue::ValueJ => "J",
        CardValue::ValueQ => "Q",
        CardValue::ValueK => "K",
        CardValue::ValueA => "A",
    }
}

// ---------------------------------------------------------------------------
// The hand itself.
// ---------------------------------------------------------------------------

/// Five cards in a fixed order, with the category they are played as.
#[derive(Clone, Copy, Debug)]
pub struct Hand {
    cards: [Card; 5],
    hand_type: HandType,
}

impl Hand {
    /// The five cards, first to last.
    pub closed spec fn layout(&self) -> Seq<Card> {
        self.cards@
    }

    /// The category the hand is played as.
    pub closed spec fn kind(&self) -> HandType {
        self.hand_type
    }

    /// The hand is played as what it is: its category is that of its
    /// cards, and the cards stand in hand order.
    pub open spec fn is_classified(&self) -> bool {
        self.kind() == category(self.layout()) && in_hand_order(self.layout())
    }

    /// A hand always has five cards.
    pub proof fn lemma_five_cards(&self)
        ensures
            self.layout().len() == 5,
    {
    }

    /// The five cards, first to last.
    pub fn cards(&self) -> (r: [Card; 5])
        ensures
            r@ == self.layout(),
    {
        self.cards
    }

    /// The category the hand is played as.
    pub fn hand_type(&self) -> (r: HandType)
        ensures
            r == self.kind(),
    {
        self.hand_type
    }

    /// The hand that exactly these five cards make: the cards in hand
    /// order, with their category.
    pub fn from_five(cards: &[Card; 5]) -> (hand: Hand)
        ensures
            hand.layout() == arranged(cards@),
            hand.kind() == category(cards@),
            hand.is_classified(),
    {
        let ordered: [Card; 5] = arrange(cards);
        let kind: HandType = classify(&ordered);
        proof {
            law_category_ignores_order(cards@);
            law_arranged_in_hand_order(cards@);
        }
        Hand { cards: ordered, hand_type: kind }
    }

    /// The best hand that two hole cards and five table cards can make:
    /// five of the seven cards in hand order, labelled with their category,
    /// which no other five of the seven beat. Where several choices of five
    /// cards are equally strong, the one that leaves out the earliest two
    /// cards of the pool is taken.
    pub fn new(hole: [Card; 2], table: [Card; 5]) -> (hand: Hand)
        ensures
            hand.layout() == chosen(pool_of(hole@, table@)),
            is_chosen(pool_of(hole@, table@), hand.layout()),
            is_best(pool_of(hole@, table@), hand.layout()),
            hand.is_classified(),
    {
        let pool: [Card; 7] = join(&hole, &table);
        let first: [Card; 5] = leave_out(&pool, 0, 1);
        let mut best: Hand = Hand::from_five(&first);
        let ghost mut bi: int = 0;
        let ghost mut bj: int = 1;
        let mut i: usize = 0;
        while i < 6
            invariant
                i <= 6,
                0 <= bi < bj < 7,
                best.layout() == arranged(without(pool@, bi, bj)),
                best.is_classified(),
                forall|a: int, b: int|
                    0 <= a < b < 7 && a < i ==> !outranks(
                        arranged(#[trigger] without(pool@, a, b)),
                        best.layout(),
                    ),
                forall|a: int, b: int|
                    0 <= a < b < 7 && (a < bi || (a == bi && b < bj)) ==> outranks(
                        best.layout(),
                        arranged(#[trigger] without(pool@, a, b)),
                    ),
            decreases 6 - i,
        {
            let mut j: usize = i + 1;
            while j < 7
                invariant
                    i < 6,
                    i < j <= 7,
                    0 <= bi < bj < 7,
                    best.layout() == arranged(without(pool@, bi, bj)),
                    best.is_classified(),
                    forall|a: int, b: int|
                        0 <= a < b < 7 && (a < i || (a == i && b < j)) ==> !outranks(
                            arranged(#[trigger] without(pool@, a, b)),
                            best.layout(),
                        ),
                    forall|a: int, b: int|
                        0 <= a < b < 7 && (a < bi || (a == bi && b < bj)) ==> outranks(
                            best.layout(),
                            arranged(#[trigger] without(pool@, a, b)),
                        ),
                decreases 7 - j,
            {
                let five: [Card; 5] = leave_out(&pool, i, j);
                let rival: Hand = Hand::from_five(&five);
                match rival.compare(&best) {
                    Standing::Greater => {
                        proof {
                            let old_best = best.layout();
                            let new_best = rival.layout();
                            assert forall|a: int, b: int|
                                0 <= a < b < 7 && (a < i || (a == i && b < j + 1)) implies !outranks(
                                arranged(#[trigger] without(pool@, a, b)),
                                new_best,
                            ) by {
                                let x = arranged(without(pool@, a, b));
                                if a == i && b == j {
                                    law_compare_reflexive(category(x), x);
                                } else {
                                    law_compare_transitive(
                                        category(x),
                                        x,
                                        category(old_best),
                                        old_best,
                                        category(new_best),
                                        new_best,
                                    );
                                    law_compare_antisymmetric(
                                        category(new_best),
                                        new_best,
                                        category(old_best),
                                        old_best,
                                    );
                                }
                            }
                            assert forall|a: int, b: int|
                                0 <= a < b < 7 && (a < i || (a == i && b < j)) implies outranks(
                                new_best,
                                arranged(#[trigger] without(pool@, a, b)),
                            ) by {
                                let x = arranged(without(pool@, a, b));
                                law_compare_antisymmetric(
                                    category(new_best),
                                    new_best,
                                    category(old_best),
                                    old_best,
                                );
                                law_compare_transitive(
                                    category(x),
                                    x,
                                    category(old_best),
                                    old_best,
                                    category(new_best),
                                    new_best,
                                );
                                law_compare_antisymmetric(
                                    category(x),
                                    x,
                                    category(new_best),
                                    new_best,
                                );
                            }
                            bi = i as int;
                            bj = j as int;
                        }
                        best = rival;
                    },
                    _ => {},
                }
                j = j + 1;
            }
            i = i + 1;
        }
        proof {
            assert(first_best(pool@, best.layout(), bi, bj));
            law_chosen_hand_unique(pool@, best.layout(), chosen(pool@));
        }
        best
    }

    /// The name of the hand's category in upper snake case.
    pub fn get_hand_type(&self) -> (r: &'static str)
        ensures
            r@ == self.kind().label(),
    {
        self.hand_type.name()
    }

    /// How this hand stands against another: by category first, then by
    /// the ranks of the cards position by position.
    pub fn compare(&self, other: &Hand) -> (r: Standing)
        ensures
            r == outcome(self.kind(), self.layout(), other.kind(), other.layout()),
    {
        let a: u8 = self.hand_type.strength();
        let b: u8 = other.hand_type.strength();
        if a < b {
            return Standing::Less;
        }
        if a > b {
            return Standing::Greater;
        }
        let mut k: usize = 0;
        while k < 5
            invariant
                k <= 5,
                self.hand_type.level() == other.hand_type.level(),
                forall|i: int|
                    0 <= i < k ==> #[trigger] rank_at(self.cards@, i) == rank_at(other.cards@, i),
            decreases 5 - k,
        {
            let x: u8 = self.cards[k].value.number();
            let y: u8 = other.cards[k].value.number();
            if x < y {
                return Standing::Less;
            }
            if x > y {
                return Standing::Greater;
            }
            k = k + 1;
        }
        Standing::Equal
    }

    /// The hand as text: one rank symbol per card, in the hand's order,
    /// nothing between them and no suits.
    pub fn to_string(&self) -> (r: String)
        ensures
            r@ == rendering(self.layout()),
    {
        let mut r: String = String::new();
        let mut k: usize = 0;
        while k < 5
            invariant
                k <= 5,
                r@.len() == k,
                forall|i: int| 0 <= i < k ==> r@[i] == #[trigger] self.cards@[i].value.symbol(),
            decreases 5 - k,
        {
            r.append(symbol_str(self.cards[k].value));
            k = k + 1;
        }
        assert(r@ =~= rendering(self.cards@));
        r
    }
}

// ---------------------------------------------------------------------------
// Single patterns on the whole pool.
// ---------------------------------------------------------------------------

fn join(hole: &[Card; 2], table: &[Card; 5]) -> (pool: [Card; 7])
    ensures
        pool@ == pool_of(hole@, table@),
{
    let pool: [Card; 7] = [hole[0], hole[1], table[0], table[1], table[2], table[3], table[4]];
    assert(pool@ =~= pool_of(hole@, table@));
    pool
}

fn count_of(pool: &[Card; 7], r: u8) -> (n: u8)
    ensures
        n as int == count_in_pool(pool@, r as int),
{
    reveal(count_in_pool);
    let mut n: u8 = 0;
    let mut k: usize = 0;
    while k < 7
        invariant
            k <= 7,
            n <= k,
            n as int == (if k > 0 { one_if(rank_at(pool@, 0) == r) } else { 0 }) + (if k > 1 {
                one_if(rank_at(pool@, 1) == r)
            } else {
                0
            }) + (if k > 2 { one_if(rank_at(pool@, 2) == r) } else { 0 }) + (if k > 3 {
                one_if(rank_at(pool@, 3) == r)
            } else {
                0
            }) + (if k > 4 { one_if(rank_at(pool@, 4) == r) } else { 0 }) + (if k > 5 {
                one_if(rank_at(pool@, 5) == r)
            } else {
                0
            }) + (if k > 6 { one_if(rank_at(pool@, 6) == r) } else { 0 }),
        decreases 7 - k,
    {
        if pool[k].value.number() == r {
            n = n + 1;
        }
        k = k + 1;
    }
    n
}

fn highest_free(pool: &[Card; 7], used: &[bool; 7]) -> (p: usize)
    requires
        free_count(used@) > 0,
    ensures
        p < 7,
        !used@[p as int],
        forall|u: int|
            0 <= u < 7 && !used@[u] ==> #[trigger] rank_at(pool@, u) <= rank_at(pool@, p as int),
{
    let mut p: usize = 7;
    let mut u: usize = 0;
    while u < 7
        invariant
            u <= 7,
            p <= 7,
            p == 7 ==> forall|v: int| 0 <= v < u ==> #[trigger] used@[v],
            p < 7 ==> !used@[p as int],
            p < 7 ==> forall|v: int|
                0 <= v < u && !used@[v] ==> #[trigger] rank_at(pool@, v) <= rank_at(
                    pool@,
                    p as int,
                ),
        decreases 7 - u,
    {
        if !used[u] {
            if p == 7 {
                p = u;
            } else if pool[u].value.number() > pool[p].value.number() {
                p = u;
            }
        }
        u = u + 1;
    }
    proof {
        reveal(free_count);
        if p == 7 {
            assert(used@[0] && used@[1] && used@[2] && used@[3] && used@[4] && used@[5]
                && used@[6]);
        }
    }
    p
}

fn fresh() -> (used: [bool; 7])
    ensures
        free_count(used@) == 7,
        forall|u: int| 0 <= u < 7 ==> !#[trigger] used@[u],
{
    reveal(free_count);
    [false, false, false, false, false, false, false]
}

fn mark(used: &mut [bool; 7], p: usize)
    requires
        p < 7,
        !old(used)@[p as int],
    ensures
        final(used)@[p as int],
        forall|u: int| 0 <= u < 7 && u != p ==> #[trigger] final(used)@[u] == old(used)@[u],
        free_count(final(used)@) == free_count(old(used)@) - 1,
{
    reveal(free_count);
    used[p] = true;
}

fn take(pool: &[Card; 7], used: &mut [bool; 7]) -> (p: usize)
    requires
        free_count(old(used)@) > 0,
    ensures
        p < 7,
        !old(used)@[p as int],
        final(used)@[p as int],
        forall|u: int| 0 <= u < 7 && u != p ==> #[trigger] final(used)@[u] == old(used)@[u],
        free_count(final(used)@) == free_count(old(used)@) - 1,
        forall|u: int|
            0 <= u < 7 && !old(used)@[u] ==> #[trigger] rank_at(pool@, u) <= rank_at(
                pool@,
                p as int,
            ),
{
    let p: usize = highest_free(pool, used);
    mark(used, p);
    p
}

/// The five highest cards of the seven, highest first, as a high-card
/// hand. Nothing else about the seven cards is looked at.
pub fn check_high_card(hole: [Card; 2], table: [Card; 5]) -> (hand: Hand)
    ensures
        hand.kind() == HandType::HighCard,
        top_five(pool_of(hole@, table@), hand.layout()),
{
    let pool: [Card; 7] = join(&hole, &table);
    let mut used: [bool; 7] = fresh();
    let ghost s0 = used@;
    let c0: usize = take(&pool, &mut used);
    let ghost s1 = used@;
    let c1: usize = take(&pool, &mut used);
    assert(!s0[c1 as int]) by {
        assert(s1[c1 as int] == s0[c1 as int]);
    }
    let ghost s2 = used@;
    let c2: usize = take(&pool, &mut used);
    assert(!s1[c2 as int]) by {
        assert(s2[c2 as int] == s1[c2 as int]);
    }
    let ghost s3 = used@;
    let c3: usize = take(&pool, &mut used);
    assert(!s2[c3 as int]) by {
        assert(s3[c3 as int] == s2[c3 as int]);
    }
    let ghost s4 = used@;
    let c4: usize = take(&pool, &mut used);
    assert(!s3[c4 as int]) by {
        assert(s4[c4 as int] == s3[c4 as int]);
    }
    let hand: Hand = Hand {
        cards: [pool[c0], pool[c1], pool[c2], pool[c3], pool[c4]],
        hand_type: HandType::HighCard,
    };
    proof {
        let h = hand.layout();
        let at = seq![c0 as int, c1 as int, c2 as int, c3 as int, c4 as int];
        assert(h[0] == pool@[c0 as int] && h[1] == pool@[c1 as int] && h[2] == pool@[c2 as int]
            && h[3] == pool@[c3 as int] && h[4] == pool@[c4 as int]);
        assert(c0 != c1 && c0 != c2 && c0 != c3 && c0 != c4);
        assert(c1 != c2 && c1 != c3 && c1 != c4);
        assert(c2 != c3 && c2 != c4 && c3 != c4);
        assert(taken_at(pool@, at, h));
        assert(rank_at(pool@, c1 as int) <= rank_at(pool@, c0 as int));
        assert(rank_at(pool@, c2 as int) <= rank_at(pool@, c1 as int));
        assert(rank_at(pool@, c3 as int) <= rank_at(pool@, c2 as int));
        assert(rank_at(pool@, c4 as int) <= rank_at(pool@, c3 as int));
        assert forall|u: int|
            0 <= u < 7 && at[0] != u && at[1] != u && at[2] != u && at[3] != u && at[4]
                != u implies #[trigger] rank_at(pool@, u) <= rank_at(h, 4) by {
            assert(s1[u] == s0[u]);
            assert(s2[u] == s1[u]);
            assert(s3[u] == s2[u]);
            assert(s4[u] == s3[u]);
            assert(!s4[u]);
        }
        assert(rest_is_lower(pool@, at, h));
        assert(top_five(pool@, h));
    }
    hand
}

fn top_pair_at(pool: &[Card; 7]) -> (r: Option<usize>)
    ensures
        match r {
            None => forall|k: int| 0 <= k < 7 ==> !#[trigger] is_paired(pool@, k),
            Some(p) => p < 7 && is_paired(pool@, p as int) && forall|k: int|
                0 <= k < 7 && #[trigger] is_paired(pool@, k) ==> rank_at(pool@, k) <= rank_at(
                    pool@,
                    p as int,
                ),
        },
{
    let mut found: Option<usize> = None;
    let mut k: usize = 0;
    while k < 7
        invariant
            k <= 7,
            match found {
                None => forall|v: int| 0 <= v < k ==> !#[trigger] is_paired(pool@, v),
                Some(p) => p < 7 && is_paired(pool@, p as int) && forall|v: int|
                    0 <= v < k && #[trigger] is_paired(pool@, v) ==> rank_at(pool@, v) <= rank_at(
                        pool@,
                        p as int,
                    ),
            },
        decreases 7 - k,
    {
        let r: u8 = pool[k].value.number();
        if count_of(pool, r) == 2 {
            match found {
                None => {
                    found = Some(k);
                },
                Some(p) => {
                    if r > pool[p].value.number() {
                        found = Some(k);
                    }
                },
            }
        }
        k = k + 1;
    }
    found
}

fn partner_of(pool: &[Card; 7], p: usize) -> (q: usize)
    requires
        p < 7,
        is_paired(pool@, p as int),
    ensures
        q < 7,
        q != p,
        rank_at(pool@, q as int) == rank_at(pool@, p as int),
{
    let r: u8 = pool[p].value.number();
    let mut q: usize = 0;
    while q < 7
        invariant
            q <= 7,
            r as int == rank_at(pool@, p as int),
            forall|v: int| 0 <= v < q && v != p ==> #[trigger] rank_at(pool@, v) != r as int,
        decreases 7 - q,
    {
        if q != p && pool[q].value.number() == r {
            return q;
        }
        q = q + 1;
    }
    proof {
        reveal(count_in_pool);
        assert(rank_at(pool@, 0) != r as int || p == 0);
        assert(rank_at(pool@, 1) != r as int || p == 1);
        assert(rank_at(pool@, 2) != r as int || p == 2);
        assert(rank_at(pool@, 3) != r as int || p == 3);
        assert(rank_at(pool@, 4) != r as int || p == 4);
        assert(rank_at(pool@, 5) != r as int || p == 5);
        assert(rank_at(pool@, 6) != r as int || p == 6);
        assert(count_in_pool(pool@, r as int) == 1);
        assert(false);
    }
    p
}

/// The best pair of the seven cards, as a pair hand: the two cards of the
/// highest rank that occurs exactly twice, then the three highest of the
/// other cards. `None` exactly when no rank occurs exactly twice. Whether
/// the seven cards make a better hand than a pair is not looked at.
pub fn get_pair(hole: [Card; 2], table: [Card; 5]) -> (r: Option<Hand>)
    ensures
        match r {
            None => forall|k: int|
                0 <= k < 7 ==> !#[trigger] is_paired(pool_of(hole@, table@), k),
            Some(hand) => hand.kind() == HandType::Pair && best_pair(
                pool_of(hole@, table@),
                hand.layout(),
            ),
        },
{
    let pool: [Card; 7] = join(&hole, &table);
    match top_pair_at(&pool) {
        None => {
            assert forall|k: int| 0 <= k < 7 implies !#[trigger] is_paired(
                pool_of(hole@, table@),
                k,
            ) by {
                assert(!is_paired(pool@, k));
            }
            None
        },
        Some(p) => {
            let q: usize = partner_of(&pool, p);
            let mut used: [bool; 7] = fresh();
            mark(&mut used, p);
            mark(&mut used, q);
            let ghost s0 = used@;
            let k0: usize = take(&pool, &mut used);
            let ghost s1 = used@;
            let k1: usize = take(&pool, &mut used);
            assert(!s0[k1 as int]) by {
                assert(s1[k1 as int] == s0[k1 as int]);
            }
            let ghost s2 = used@;
            let k2: usize = take(&pool, &mut used);
            assert(!s1[k2 as int]) by {
                assert(s2[k2 as int] == s1[k2 as int]);
            }
            let hand: Hand = Hand {
                cards: [pool[p], pool[q], pool[k0], pool[k1], pool[k2]],
                hand_type: HandType::Pair,
            };
            proof {
                let h = hand.layout();
                let at = seq![p as int, q as int, k0 as int, k1 as int, k2 as int];
                assert(h[0] == pool@[p as int] && h[1] == pool@[q as int] && h[2] == pool@[k0 as int]
                    && h[3] == pool@[k1 as int] && h[4] == pool@[k2 as int]);
                assert(p != q && p != k0 && p != k1 && p != k2);
                assert(q != k0 && q != k1 && q != k2);
                assert(k0 != k1 && k0 != k2 && k1 != k2);
                assert(taken_at(pool@, at, h));
                assert(rank_at(h, 0) == rank_at(h, 1));
                assert(is_paired(pool@, p as int));
                assert(rank_at(pool@, k1 as int) <= rank_at(pool@, k0 as int));
                assert(rank_at(pool@, k2 as int) <= rank_at(pool@, k1 as int));
                assert forall|u: int|
                    0 <= u < 7 && at[0] != u && at[1] != u && at[2] != u && at[3] != u && at[4]
                        != u implies #[trigger] rank_at(pool@, u) <= rank_at(h, 4) by {
                    assert(s1[u] == s0[u]);
                    assert(s2[u] == s1[u]);
                    assert(!s0[u]);
                }
                assert(rest_is_lower(pool@, at, h));
                assert(best_pair(pool@, h));
            }
            Some(hand)
        },
    }
}

} // verus!
