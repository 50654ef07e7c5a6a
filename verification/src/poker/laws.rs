//! Laws of the classifier, proved once for all lines.

use vstd::multiset::Multiset;
use vstd::prelude::*;

use crate::poker::combination::ClassificationError;
use crate::poker::combination::Combination;
use crate::poker::deck_card::DeckCard;
use crate::poker::deck_card::rank_from_index;
use crate::poker::model::all_one_suit;
use crate::poker::model::has_run_at;
use crate::poker::model::is_flush;
use crate::poker::model::is_straight;
use crate::poker::model::is_wheel;
use crate::poker::model::lemma_flush_suit_unique;
use crate::poker::model::lemma_highest_rank_is;
use crate::poker::model::lemma_pairs_table_empty;
use crate::poker::model::lemma_rank_counts_sum_len;
use crate::poker::model::one_group_result;
use crate::poker::model::pairs_table;
use crate::poker::model::rank_count;
use crate::poker::model::rank_counts_sum_below;
use crate::poker::model::spec_classify;
use crate::poker::model::straight_high;
use crate::poker::model::zero_groups_result;
use crate::poker::play_card::PlayCard;
use crate::poker::suit::Suit;

verus! {

/// Classification is a pure function of the line: any two results of
/// classifying the same line are equal.
pub proof fn lemma_classify_idempotent(
    s: Seq<PlayCard>,
    r1: Result<Combination, ClassificationError>,
    r2: Result<Combination, ClassificationError>,
)
    requires
        r1 == spec_classify(s),
        r2 == spec_classify(s),
    ensures
        r1 == r2,
{
}

/// Classification is invariant under reordering of the input cards: lines
/// holding the same multiset of cards classify alike.
pub proof fn lemma_classify_permutation_invariant(s1: Seq<PlayCard>, s2: Seq<PlayCard>)
    requires
        s1.to_multiset() == s2.to_multiset(),
    ensures
        spec_classify(s1) == spec_classify(s2),
{
}

/// A 5-card line in which no rank repeats classifies by the straight/flush
/// decision table, so its combination is a kicker, a straight, a flush, a
/// straight flush or a royal flush.
pub proof fn lemma_no_pair_classification(s: Seq<PlayCard>)
    requires
        s.len() == 5,
        forall|r: DeckCard| #[trigger] rank_count(s.to_multiset(), r) <= 1,
    ensures
        spec_classify(s) == zero_groups_result(s.to_multiset()),
        spec_classify(s) matches Ok(c) && (c is Kicker || c is Straight || c is Flush
            || c is StraightFlush || c is RoyalFlush),
{
    broadcast use vstd::seq_lib::group_to_multiset_ensures;

    let m = s.to_multiset();
    assert(m.len() == 5);
    lemma_pairs_table_empty(m, 13);
}

/// One card each of exactly the five given face-value positions.
pub open spec fn ranks_exactly(
    m: Multiset<PlayCard>,
    i1: int,
    i2: int,
    i3: int,
    i4: int,
    i5: int,
) -> bool {
    forall|k: int|
        0 <= k < 13 ==> rank_count(m, #[trigger] rank_from_index(k)) == (if k == i1 || k == i2 || k
            == i3 || k == i4 || k == i5 {
            1nat
        } else {
            0nat
        })
}

proof fn lemma_indicator_sum_below(
    m: Multiset<PlayCard>,
    i1: int,
    i2: int,
    i3: int,
    i4: int,
    i5: int,
    i: int,
)
    requires
        0 <= i <= 13,
        0 <= i1 < i2 < i3 < i4 < i5 < 13,
        ranks_exactly(m, i1, i2, i3, i4, i5),
    ensures
        rank_counts_sum_below(m, i) == (if i1 < i {
            1nat
        } else {
            0nat
        }) + (if i2 < i {
            1nat
        } else {
            0nat
        }) + (if i3 < i {
            1nat
        } else {
            0nat
        }) + (if i4 < i {
            1nat
        } else {
            0nat
        }) + (if i5 < i {
            1nat
        } else {
            0nat
        }),
    decreases i,
{
    if i > 0 {
        lemma_indicator_sum_below(m, i1, i2, i3, i4, i5, i - 1);
    }
}

/// A line holding one card each of five distinct ranks holds five cards.
proof fn lemma_five_ranks_len(m: Multiset<PlayCard>, i1: int, i2: int, i3: int, i4: int, i5: int)
    requires
        0 <= i1 < i2 < i3 < i4 < i5 < 13,
        ranks_exactly(m, i1, i2, i3, i4, i5),
    ensures
        m.len() == 5,
{
    lemma_rank_counts_sum_len(m);
    lemma_indicator_sum_below(m, i1, i2, i3, i4, i5, 13);
}

/// The rank multiset of the wheel: `Two`, `Three`, `Four`, `Five`, `Ace`,
/// one card each.
pub open spec fn wheel_ranks_only(m: Multiset<PlayCard>) -> bool {
    ranks_exactly(m, 0, 1, 2, 3, 12)
}

/// The rank multiset of the royal flush: `Ten` through `Ace`, one card
/// each.
pub open spec fn royal_ranks_only(m: Multiset<PlayCard>) -> bool {
    ranks_exactly(m, 8, 9, 10, 11, 12)
}

proof fn lemma_wheel_basics(m: Multiset<PlayCard>)
    requires
        wheel_ranks_only(m),
    ensures
        m.len() == 5,
        pairs_table(m).len() == 0,
        is_straight(m),
        straight_high(m) == DeckCard::Five,
{
    lemma_five_ranks_len(m, 0, 1, 2, 3, 12);
    assert forall|r: DeckCard| #[trigger] rank_count(m, r) <= 1 by {
        crate::poker::deck_card::lemma_rank_index_roundtrip(r);
        let k = crate::poker::deck_card::rank_index(r);
        assert(rank_count(m, rank_from_index(k)) <= 1);
    }
    lemma_pairs_table_empty(m, 13);
    assert(rank_count(m, rank_from_index(0)) == 1);
    assert(rank_count(m, rank_from_index(1)) == 1);
    assert(rank_count(m, rank_from_index(2)) == 1);
    assert(rank_count(m, rank_from_index(3)) == 1);
    assert(rank_count(m, rank_from_index(12)) == 1);
    assert(is_wheel(m));
}

/// The wheel law, one suit: the wheel's ranks all in suit `su` classify as
/// a straight flush carrying `Five` high, in that same suit.
pub proof fn lemma_wheel_one_suit(s: Seq<PlayCard>, su: Suit)
    requires
        wheel_ranks_only(s.to_multiset()),
        all_one_suit(s.to_multiset(), su),
    ensures
        spec_classify(s) == Ok::<Combination, ClassificationError>(
            Combination::StraightFlush(PlayCard { value: DeckCard::Five, suit: su }),
        ),
{
    let m = s.to_multiset();
    lemma_wheel_basics(m);
    assert(is_flush(m));
    lemma_flush_suit_unique(m, su);
}

/// The wheel law, mixed suits: the wheel's ranks in more than one suit
/// classify as a straight carrying `Five`.
pub proof fn lemma_wheel_mixed_suits(s: Seq<PlayCard>)
    requires
        wheel_ranks_only(s.to_multiset()),
        !(exists|su: Suit| all_one_suit(s.to_multiset(), su)),
    ensures
        spec_classify(s) == Ok::<Combination, ClassificationError>(
            Combination::Straight(DeckCard::Five),
        ),
{
    let m = s.to_multiset();
    lemma_wheel_basics(m);
    assert(!is_flush(m));
}

/// The royal law: ranks `Ten` through `Ace`, all of suit `su`, classify as
/// the royal flush of that suit.
pub proof fn lemma_royal_flush(s: Seq<PlayCard>, su: Suit)
    requires
        royal_ranks_only(s.to_multiset()),
        all_one_suit(s.to_multiset(), su),
    ensures
        spec_classify(s) == Ok::<Combination, ClassificationError>(Combination::RoyalFlush(su)),
{
    let m = s.to_multiset();
    lemma_five_ranks_len(m, 8, 9, 10, 11, 12);
    assert forall|r: DeckCard| #[trigger] rank_count(m, r) <= 1 by {
        crate::poker::deck_card::lemma_rank_index_roundtrip(r);
        let k = crate::poker::deck_card::rank_index(r);
        assert(rank_count(m, rank_from_index(k)) <= 1);
    }
    lemma_pairs_table_empty(m, 13);
    assert forall|k: int| 8 <= k < 13 implies rank_count(m, #[trigger] rank_from_index(k))
        == 1 by {}
    assert(has_run_at(m, 8));
    assert(is_straight(m));
    assert(rank_count(m, rank_from_index(0)) == 0);
    assert(!is_wheel(m));
    assert(rank_count(m, rank_from_index(12)) == 1);
    lemma_highest_rank_is(m, 12);
    assert(straight_high(m) == DeckCard::Ace);
    assert(is_flush(m));
    lemma_flush_suit_unique(m, su);
}

/// A rank counted four times on a 3-card line is rejected as inconsistent,
/// never downgraded to a lesser combination.
pub proof fn lemma_four_count_rejected_at_three(r: DeckCard)
    ensures
        one_group_result(3, r, 4) == Err::<Combination, ClassificationError>(
            ClassificationError::InconsistentHand,
        ),
{
}

/// No 3-card line ever classifies as four of a kind.
pub proof fn lemma_no_four_of_a_kind_at_three(s: Seq<PlayCard>)
    requires
        s.len() == 3,
    ensures
        !(spec_classify(s) matches Ok(c) && c is FourOfAKind),
{
    broadcast use vstd::seq_lib::group_to_multiset_ensures;

    let m = s.to_multiset();
    assert(m.len() == 3);
}

} // verus!
