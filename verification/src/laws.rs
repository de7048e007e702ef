//! What holds of the comparison of hands, of the hand order, and of the
//! best hand among seven cards.

use vstd::prelude::*;
use crate::card::{is_value_char, Card};
use crate::hand::{HandType, Standing};
use crate::model::{
    arranged, category, count_in_pool, count_rank, drawn_from, first_best, group_size, has_group,
    in_hand_order, in_sequence, is_best, is_chosen, kept, one_if, outcome, outranks,
    paired_cards, precedes, rank_at, rendering, same_suit, slot, source, taken_at, weight,
    without,
};

verus! {

/// A hand stands equal to itself.
pub proof fn law_compare_reflexive(k: HandType, a: Seq<Card>)
    ensures
        outcome(k, a, k, a) == Standing::Equal,
{
}

/// Two hands stand equal exactly when they have one category and the same
/// rank at each of the five positions.
pub proof fn law_compare_equal(ka: HandType, a: Seq<Card>, kb: HandType, b: Seq<Card>)
    ensures
        outcome(ka, a, kb, b) == Standing::Equal <==> (ka == kb && forall|i: int|
            0 <= i < 5 ==> rank_at(a, i) == rank_at(b, i)),
{
}

/// Turning a comparison round turns its result round.
pub proof fn law_compare_antisymmetric(ka: HandType, a: Seq<Card>, kb: HandType, b: Seq<Card>)
    ensures
        outcome(ka, a, kb, b) == Standing::Less <==> outcome(kb, b, ka, a) == Standing::Greater,
        outcome(ka, a, kb, b) == Standing::Greater <==> outcome(kb, b, ka, a) == Standing::Less,
        outcome(ka, a, kb, b) == Standing::Equal <==> outcome(kb, b, ka, a) == Standing::Equal,
{
}

/// The comparison is transitive, in its strict and in its weak form.
pub proof fn law_compare_transitive(
    ka: HandType,
    a: Seq<Card>,
    kb: HandType,
    b: Seq<Card>,
    kc: HandType,
    c: Seq<Card>,
)
    ensures
        outcome(ka, a, kb, b) != Standing::Greater && outcome(kb, b, kc, c) != Standing::Greater
            ==> outcome(ka, a, kc, c) != Standing::Greater,
        outcome(ka, a, kb, b) == Standing::Less && outcome(kb, b, kc, c) != Standing::Greater
            ==> outcome(ka, a, kc, c) == Standing::Less,
        outcome(ka, a, kb, b) != Standing::Greater && outcome(kb, b, kc, c) == Standing::Less
            ==> outcome(ka, a, kc, c) == Standing::Less,
        outcome(ka, a, kb, b) == Standing::Equal && outcome(kb, b, kc, c) == Standing::Equal
            ==> outcome(ka, a, kc, c) == Standing::Equal,
{
}

/// The category decides first: a hand of a weaker category stands below
/// a hand of a stronger one, whatever their cards.
pub proof fn law_compare_follows_category(
    ka: HandType,
    a: Seq<Card>,
    kb: HandType,
    b: Seq<Card>,
)
    ensures
        ka.level() < kb.level() ==> outcome(ka, a, kb, b) == Standing::Less,
        ka.level() > kb.level() ==> outcome(ka, a, kb, b) == Standing::Greater,
        ka.level() == kb.level() <==> ka == kb,
{
}

/// A hand's text has five characters, each the symbol of a rank.
pub proof fn law_rendering_shape(s: Seq<Card>)
    ensures
        rendering(s).len() == 5,
        forall|i: int| 0 <= i < 5 ==> is_value_char(#[trigger] rendering(s)[i]),
{
    assert forall|i: int| 0 <= i < 5 implies is_value_char(
        #[trigger] rendering(s)[i],
    ) by {
        assert(s[i].value.symbol() == rendering(s)[i]);
    }
}

/// Of two different positions, the card that is placed before the other
/// takes an earlier position in the ordered hand.
proof fn lemma_slots_differ(s: Seq<Card>, i: int, j: int)
    requires
        0 <= i < 5,
        0 <= j < 5,
        i != j,
    ensures
        0 <= slot(s, i) <= 4,
        slot(s, i) != slot(s, j),
{
    reveal(slot);
    if precedes(s, i, j) {
        assert(slot(s, i) < slot(s, j));
    } else {
        assert(precedes(s, j, i));
        assert(slot(s, j) < slot(s, i));
    }
}

/// Putting five cards in hand order moves them and does no more: every
/// position of the ordered hand is filled from a position of its own.
pub proof fn law_arranged_rearranges(s: Seq<Card>)
    requires
        s.len() == 5,
    ensures
        arranged(s).len() == 5,
        forall|p: int| 0 <= p < 5 ==> 0 <= #[trigger] source(s, p) < 5,
        forall|p: int| 0 <= p < 5 ==> arranged(s)[p] == s[#[trigger] source(s, p)],
        forall|p: int, q: int|
            0 <= p < 5 && 0 <= q < 5 && p != q ==> #[trigger] source(s, p) != #[trigger] source(
                s,
                q,
            ),
        forall|i: int| 0 <= i < 5 ==> 0 <= #[trigger] slot(s, i) < 5 && source(s, slot(s, i)) == i,
        forall|p: int| 0 <= p < 5 ==> slot(s, #[trigger] source(s, p)) == p,
{
    reveal(source);
    lemma_slots_differ(s, 0, 1);
    lemma_slots_differ(s, 0, 2);
    lemma_slots_differ(s, 0, 3);
    lemma_slots_differ(s, 0, 4);
    lemma_slots_differ(s, 1, 2);
    lemma_slots_differ(s, 1, 3);
    lemma_slots_differ(s, 1, 4);
    lemma_slots_differ(s, 2, 3);
    lemma_slots_differ(s, 2, 4);
    lemma_slots_differ(s, 3, 4);
    lemma_slots_differ(s, 4, 0);
    assert forall|p: int| 0 <= p < 5 implies slot(s, #[trigger] source(s, p)) == p by {
        if slot(s, 0) != p && slot(s, 1) != p && slot(s, 2) != p && slot(s, 3) != p {
            assert(slot(s, 4) == p);
        }
    }
}

/// Putting five cards in hand order keeps how often each rank occurs.
pub proof fn law_arranged_keeps_counts(s: Seq<Card>, r: int)
    requires
        s.len() == 5,
    ensures
        count_rank(arranged(s), r) == count_rank(s, r),
{
    law_arranged_rearranges(s);
    let t = arranged(s);
    let k0 = source(s, 0);
    let k1 = source(s, 1);
    let k2 = source(s, 2);
    let k3 = source(s, 3);
    let k4 = source(s, 4);
    assert(k0 != k1 && k0 != k2 && k0 != k3 && k0 != k4 && k1 != k2 && k1 != k3 && k1 != k4 && k2
        != k3 && k2 != k4 && k3 != k4);
    assert(rank_at(t, 0) == rank_at(s, k0));
    assert(rank_at(t, 1) == rank_at(s, k1));
    assert(rank_at(t, 2) == rank_at(s, k2));
    assert(rank_at(t, 3) == rank_at(s, k3));
    assert(rank_at(t, 4) == rank_at(s, k4));
}

/// The ordered hand is in hand order, and each of its cards stands in a
/// rank group of the size it had before.
pub proof fn law_arranged_in_hand_order(s: Seq<Card>)
    requires
        s.len() == 5,
    ensures
        in_hand_order(arranged(s)),
        forall|p: int|
            0 <= p < 5 ==> #[trigger] group_size(arranged(s), p) == group_size(s, source(s, p)),
{
    law_arranged_rearranges(s);
    let t = arranged(s);
    assert forall|p: int| 0 <= p < 5 implies #[trigger] group_size(t, p) == group_size(
        s,
        source(s, p),
    ) && weight(t, p) == weight(s, source(s, p)) by {
        reveal(group_size);
        reveal(weight);
        assert(rank_at(t, p) == rank_at(s, source(s, p)));
        law_arranged_keeps_counts(s, rank_at(t, p));
    }
    assert forall|p: int| 0 <= p < 4 implies #[trigger] weight(t, p) >= weight(t, p + 1) by {
        let i = source(s, p);
        let j = source(s, p + 1);
        assert(slot(s, i) == p);
        assert(slot(s, j) == p + 1);
        assert(group_size(t, p) == group_size(s, i));
        assert(group_size(t, p + 1) == group_size(s, j));
        if !precedes(s, i, j) {
            assert(precedes(s, j, i));
            lemma_precedes_is_earlier(s, j, i);
        }
    }
    assert(weight(t, 0) >= weight(t, 1));
    assert(weight(t, 1) >= weight(t, 2));
    assert(weight(t, 2) >= weight(t, 3));
    assert(weight(t, 3) >= weight(t, 4));
}

/// The category of five cards does not depend on their order: the
/// ordered hand has the category of the cards it was made from.
pub proof fn law_category_ignores_order(s: Seq<Card>)
    requires
        s.len() == 5,
    ensures
        category(arranged(s)) == category(s),
{
    law_arranged_rearranges(s);
    law_arranged_in_hand_order(s);
    let t = arranged(s);
    assert forall|n: int| has_group(t, n) == has_group(s, n) by {
        lemma_groups_kept(s, n);
    }
    lemma_pairs_kept(s);
    assert(same_suit(t) == same_suit(s)) by {
        lemma_suits_kept(s);
    }
    assert(in_sequence(t) == in_sequence(s)) by {
        lemma_spread_kept(s);
        assert(has_group(t, 2) == has_group(s, 2));
        assert(has_group(t, 3) == has_group(s, 3));
        assert(has_group(t, 4) == has_group(s, 4));
        assert(has_group(t, 5) == has_group(s, 5));
    }
}

proof fn lemma_precedes_is_earlier(s: Seq<Card>, i: int, j: int)
    requires
        0 <= i < 5,
        0 <= j < 5,
        precedes(s, i, j),
    ensures
        slot(s, i) < slot(s, j),
{
    reveal(slot);
}

proof fn lemma_groups_kept(s: Seq<Card>, n: int)
    requires
        s.len() == 5,
    ensures
        has_group(arranged(s), n) == has_group(s, n),
{
    law_arranged_rearranges(s);
    law_arranged_in_hand_order(s);
    let t = arranged(s);
    assert(group_size(t, 0) == group_size(s, source(s, 0)));
    assert(group_size(t, 1) == group_size(s, source(s, 1)));
    assert(group_size(t, 2) == group_size(s, source(s, 2)));
    assert(group_size(t, 3) == group_size(s, source(s, 3)));
    assert(group_size(t, 4) == group_size(s, source(s, 4)));
    assert(group_size(t, slot(s, 0)) == group_size(s, source(s, slot(s, 0))));
    assert(group_size(t, slot(s, 1)) == group_size(s, source(s, slot(s, 1))));
    assert(group_size(t, slot(s, 2)) == group_size(s, source(s, slot(s, 2))));
    assert(group_size(t, slot(s, 3)) == group_size(s, source(s, slot(s, 3))));
    assert(group_size(t, slot(s, 4)) == group_size(s, source(s, slot(s, 4))));
}

proof fn lemma_pairs_kept(s: Seq<Card>)
    requires
        s.len() == 5,
    ensures
        paired_cards(arranged(s)) == paired_cards(s),
{
    law_arranged_rearranges(s);
    law_arranged_in_hand_order(s);
    let t = arranged(s);
    let k0 = source(s, 0);
    let k1 = source(s, 1);
    let k2 = source(s, 2);
    let k3 = source(s, 3);
    let k4 = source(s, 4);
    assert(k0 != k1 && k0 != k2 && k0 != k3 && k0 != k4 && k1 != k2 && k1 != k3 && k1 != k4 && k2
        != k3 && k2 != k4 && k3 != k4);
    assert(group_size(t, 0) == group_size(s, k0));
    assert(group_size(t, 1) == group_size(s, k1));
    assert(group_size(t, 2) == group_size(s, k2));
    assert(group_size(t, 3) == group_size(s, k3));
    assert(group_size(t, 4) == group_size(s, k4));
}

proof fn lemma_suits_kept(s: Seq<Card>)
    requires
        s.len() == 5,
    ensures
        same_suit(arranged(s)) == same_suit(s),
{
    law_arranged_rearranges(s);
    let t = arranged(s);
    assert(t[0] == s[source(s, 0)]);
    assert(t[1] == s[source(s, 1)]);
    assert(t[2] == s[source(s, 2)]);
    assert(t[3] == s[source(s, 3)]);
    assert(t[4] == s[source(s, 4)]);
    assert(t[slot(s, 0)] == s[source(s, slot(s, 0))]);
    assert(t[slot(s, 1)] == s[source(s, slot(s, 1))]);
    assert(t[slot(s, 2)] == s[source(s, slot(s, 2))]);
    assert(t[slot(s, 3)] == s[source(s, slot(s, 3))]);
    assert(t[slot(s, 4)] == s[source(s, slot(s, 4))]);
}

proof fn lemma_spread_kept(s: Seq<Card>)
    requires
        s.len() == 5,
    ensures
        (forall|i: int, j: int|
            0 <= i < 5 && 0 <= j < 5 ==> #[trigger] rank_at(arranged(s), i) - #[trigger] rank_at(
                arranged(s),
                j,
            ) <= 4) == (forall|i: int, j: int|
            0 <= i < 5 && 0 <= j < 5 ==> #[trigger] rank_at(s, i) - #[trigger] rank_at(s, j) <= 4),
{
    law_arranged_rearranges(s);
    let t = arranged(s);
    if forall|i: int, j: int|
        0 <= i < 5 && 0 <= j < 5 ==> #[trigger] rank_at(s, i) - #[trigger] rank_at(s, j) <= 4 {
        assert forall|i: int, j: int| 0 <= i < 5 && 0 <= j < 5 implies #[trigger] rank_at(t, i)
            - #[trigger] rank_at(t, j) <= 4 by {
            assert(rank_at(t, i) == rank_at(s, source(s, i)));
            assert(rank_at(t, j) == rank_at(s, source(s, j)));
        }
    }
    if forall|i: int, j: int|
        0 <= i < 5 && 0 <= j < 5 ==> #[trigger] rank_at(t, i) - #[trigger] rank_at(t, j) <= 4 {
        assert forall|i: int, j: int| 0 <= i < 5 && 0 <= j < 5 implies #[trigger] rank_at(s, i)
            - #[trigger] rank_at(s, j) <= 4 by {
            assert(rank_at(t, slot(s, i)) == rank_at(s, source(s, slot(s, i))));
            assert(rank_at(t, slot(s, j)) == rank_at(s, source(s, slot(s, j))));
        }
    }
}

/// A hand in hand order whose ranks are in sequence steps down by one
/// rank from each card to the next.
pub proof fn law_sequence_steps_down(s: Seq<Card>)
    requires
        s.len() == 5,
        in_sequence(s),
        in_hand_order(s),
    ensures
        forall|k: int| 0 <= k < 5 ==> #[trigger] rank_at(s, k) == rank_at(s, 0) - k,
{
    reveal(group_size);
    reveal(weight);
    assert(group_size(s, 0) == 1 && group_size(s, 1) == 1 && group_size(s, 2) == 1 && group_size(
        s,
        3,
    ) == 1 && group_size(s, 4) == 1);
    assert(rank_at(s, 0) > rank_at(s, 1));
    assert(rank_at(s, 1) > rank_at(s, 2));
    assert(rank_at(s, 2) > rank_at(s, 3));
    assert(rank_at(s, 3) > rank_at(s, 4));
    assert(rank_at(s, 0) - rank_at(s, 4) <= 4);
}

/// A hand drawn from a pool of seven holds the cards of five different
/// positions of the pool; where no card occurs twice in the pool, none
/// occurs twice in the hand.
pub proof fn law_hand_within_pool(pool: Seq<Card>, h: Seq<Card>)
    requires
        pool.len() == 7,
        drawn_from(pool, h),
    ensures
        h.len() == 5,
        exists|at: Seq<int>| taken_at(pool, at, h),
        (forall|x: int, y: int| 0 <= x < 7 && 0 <= y < 7 && x != y ==> pool[x] != pool[y])
            ==> forall|k: int, l: int| 0 <= k < 5 && 0 <= l < 5 && k != l ==> h[k] != h[l],
{
    let (i, j) = choose|i: int, j: int|
        0 <= i < j < 7 && h == arranged(#[trigger] without(pool, i, j));
    let sub = without(pool, i, j);
    law_arranged_rearranges(sub);
    let at = Seq::new(5, |k: int| kept(source(sub, k), i, j));
    assert forall|k: int| 0 <= k < 5 implies 0 <= #[trigger] at[k] < 7 && h[k] == pool[at[k]] by {
        assert(h[k] == sub[source(sub, k)]);
    }
    assert forall|k: int, l: int| 0 <= k < 5 && 0 <= l < 5 && k != l implies #[trigger] at[k]
        != #[trigger] at[l] by {
        assert(source(sub, k) != source(sub, l));
    }
    assert(taken_at(pool, at, h));
    if forall|x: int, y: int| 0 <= x < 7 && 0 <= y < 7 && x != y ==> pool[x] != pool[y] {
        assert forall|k: int, l: int| 0 <= k < 5 && 0 <= l < 5 && k != l implies h[k] != h[l] by {
            assert(at[k] != at[l]);
            assert(h[k] == pool[at[k]]);
            assert(h[l] == pool[at[l]]);
        }
    }
}

/// The best hand of a pool is determined up to suits: two best hands of
/// one pool have the same category and the same rank at each position.
pub proof fn law_best_hand_unique(pool: Seq<Card>, a: Seq<Card>, b: Seq<Card>)
    requires
        is_best(pool, a),
        is_best(pool, b),
    ensures
        category(a) == category(b),
        forall|k: int| 0 <= k < 5 ==> rank_at(a, k) == rank_at(b, k),
        rendering(a) == rendering(b),
{
    let (i, j) = choose|i: int, j: int|
        0 <= i < j < 7 && a == arranged(#[trigger] without(pool, i, j));
    let (m, n) = choose|m: int, n: int|
        0 <= m < n < 7 && b == arranged(#[trigger] without(pool, m, n));
    assert(!outranks(a, b));
    assert(!outranks(b, a));
    law_compare_antisymmetric(category(a), a, category(b), b);
    law_compare_equal(category(a), a, category(b), b);
    assert forall|k: int| 0 <= k < 5 implies a[k].value == b[k].value by {
        assert(rank_at(a, k) == rank_at(b, k));
    }
    assert(rendering(a) =~= rendering(b));
}

/// The chosen hand is a best hand.
pub proof fn law_chosen_is_best(pool: Seq<Card>, h: Seq<Card>)
    requires
        is_chosen(pool, h),
    ensures
        is_best(pool, h),
{
    let (i, j) = choose|i: int, j: int| #[trigger] first_best(pool, h, i, j);
    assert(h == arranged(without(pool, i, j)));
}

/// The chosen hand is determined by the pool, card for card.
pub proof fn law_chosen_hand_unique(pool: Seq<Card>, a: Seq<Card>, b: Seq<Card>)
    requires
        is_chosen(pool, a),
        is_chosen(pool, b),
    ensures
        a == b,
{
    let (i, j) = choose|i: int, j: int| #[trigger] first_best(pool, a, i, j);
    let (m, n) = choose|m: int, n: int| #[trigger] first_best(pool, b, m, n);
    if i < m || (i == m && j < n) {
        assert(outranks(b, arranged(without(pool, i, j))));
        assert(!outranks(arranged(without(pool, m, n)), a));
        law_compare_antisymmetric(category(a), a, category(b), b);
    } else if m < i || (m == i && n < j) {
        assert(outranks(a, arranged(without(pool, m, n))));
        assert(!outranks(arranged(without(pool, i, j)), b));
        law_compare_antisymmetric(category(a), a, category(b), b);
    }
}

/// No five cards of the pool have a higher category than the best hand.
pub proof fn law_best_hand_has_top_category(pool: Seq<Card>, h: Seq<Card>, i: int, j: int)
    requires
        pool.len() == 7,
        is_best(pool, h),
        0 <= i < j < 7,
    ensures
        category(without(pool, i, j)).level() <= category(h).level(),
{
    law_category_ignores_order(without(pool, i, j));
    assert(!outranks(arranged(without(pool, i, j)), h));
}

/// Taking two cards out of the pool lowers the count of a rank by one for
/// each of the two that has it.
proof fn lemma_count_without(pool: Seq<Card>, i: int, j: int, r: int)
    requires
        pool.len() == 7,
        0 <= i < j < 7,
    ensures
        count_rank(without(pool, i, j), r) == count_in_pool(pool, r) - one_if(
            rank_at(pool, i) == r,
        ) - one_if(rank_at(pool, j) == r),
{
    reveal(count_in_pool);
    let sub = without(pool, i, j);
    assert(rank_at(sub, 0) == rank_at(pool, kept(0, i, j)));
    assert(rank_at(sub, 1) == rank_at(pool, kept(1, i, j)));
    assert(rank_at(sub, 2) == rank_at(pool, kept(2, i, j)));
    assert(rank_at(sub, 3) == rank_at(pool, kept(3, i, j)));
    assert(rank_at(sub, 4) == rank_at(pool, kept(4, i, j)));
}

/// Where some five cards of the pool hold four of one rank, the best hand
/// is a four of a kind, no less and no more.
pub proof fn law_four_of_a_rank(pool: Seq<Card>, h: Seq<Card>, i: int, j: int)
    requires
        pool.len() == 7,
        is_best(pool, h),
        0 <= i < j < 7,
        has_group(without(pool, i, j), 4),
    ensures
        category(h) == HandType::FourOfAKind,
{
    let sub = without(pool, i, j);
    law_best_hand_has_top_category(pool, h, i, j);
    assert(category(sub) == HandType::FourOfAKind);
    let p = if group_size(sub, 0) == 4 {
        0int
    } else if group_size(sub, 1) == 4 {
        1
    } else if group_size(sub, 2) == 4 {
        2
    } else if group_size(sub, 3) == 4 {
        3
    } else {
        4
    };
    let r = rank_at(sub, p);
    assert(count_rank(sub, r) == 4) by {
        reveal(group_size);
    }
    lemma_count_without(pool, i, j, r);
    assert(count_in_pool(pool, r) >= 4);
    let (m, n) = choose|m: int, n: int|
        0 <= m < n < 7 && h == arranged(#[trigger] without(pool, m, n));
    let other = without(pool, m, n);
    law_category_ignores_order(other);
    lemma_count_without(pool, m, n, r);
    assert(count_rank(other, r) >= 2);
    assert(!in_sequence(other)) by {
        reveal(group_size);
        let q = if rank_at(other, 0) == r {
            0int
        } else if rank_at(other, 1) == r {
            1
        } else if rank_at(other, 2) == r {
            2
        } else if rank_at(other, 3) == r {
            3
        } else {
            4
        };
        assert(rank_at(other, q) == r);
        assert(group_size(other, q) == count_rank(other, r));
        assert(2 <= group_size(other, q) <= 5);
        assert(has_group(other, group_size(other, q)));
    }
}

} // verus!
