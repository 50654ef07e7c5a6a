//! The mathematical model of a line: rank multiplicities, flushes and
//! straights, stated over the multiset of its cards.

use vstd::multiset::Multiset;
use vstd::prelude::*;

use crate::poker::combination::ClassificationError;
use crate::poker::combination::Combination;
use crate::poker::deck_card::DeckCard;
use crate::poker::deck_card::rank_from_index;
use crate::poker::deck_card::rank_index;
use crate::poker::play_card::PlayCard;
use crate::poker::play_card::spec_highest;
use crate::poker::suit::Suit;

verus! {

/// How many cards of rank `r` the line holds, summed over the four suits.
pub open spec fn rank_count(m: Multiset<PlayCard>, r: DeckCard) -> nat {
    m.count(PlayCard { value: r, suit: Suit::Hearts }) + m.count(
        PlayCard { value: r, suit: Suit::Diamonds },
    ) + m.count(PlayCard { value: r, suit: Suit::Clubs }) + m.count(
        PlayCard { value: r, suit: Suit::Spades },
    )
}

/// Every card of the line is of suit `su`.
pub open spec fn all_one_suit(m: Multiset<PlayCard>, su: Suit) -> bool {
    forall|c: PlayCard| #[trigger] m.count(c) > 0 ==> c.suit == su
}

/// A flush: five cards, all of one suit.
pub open spec fn is_flush(m: Multiset<PlayCard>) -> bool {
    m.len() == 5 && exists|su: Suit| all_one_suit(m, su)
}

/// The suit a flush is in.
pub open spec fn flush_suit(m: Multiset<PlayCard>) -> Suit {
    choose|su: Suit| all_one_suit(m, su)
}

/// Each of the five ranks at positions `lo` .. `lo + 4` appears exactly once.
pub open spec fn has_run_at(m: Multiset<PlayCard>, lo: int) -> bool {
    forall|k: int| lo <= k < lo + 5 ==> rank_count(m, #[trigger] rank_from_index(k)) == 1
}

/// The wheel: one card each of `Two`, `Three`, `Four`, `Five` and `Ace`.
pub open spec fn is_wheel(m: Multiset<PlayCard>) -> bool {
    &&& rank_count(m, DeckCard::Two) == 1
    &&& rank_count(m, DeckCard::Three) == 1
    &&& rank_count(m, DeckCard::Four) == 1
    &&& rank_count(m, DeckCard::Five) == 1
    &&& rank_count(m, DeckCard::Ace) == 1
}

/// A straight: five cards of consecutive rank, where the wheel counts as the
/// one straight in which `Ace` ranks low.
pub open spec fn is_straight(m: Multiset<PlayCard>) -> bool {
    m.len() == 5 && ((exists|lo: int| 0 <= lo <= 8 && has_run_at(m, lo)) || is_wheel(m))
}

/// The high rank of a straight: `Five` for the wheel, otherwise the highest
/// rank present.
pub open spec fn straight_high(m: Multiset<PlayCard>) -> DeckCard {
    if is_wheel(m) {
        DeckCard::Five
    } else {
        highest_rank(m)
    }
}

/// The largest face-value position below `i` whose rank is present, or -1.
pub open spec fn highest_rank_index_below(m: Multiset<PlayCard>, i: int) -> int
    decreases i,
{
    if i <= 0 {
        -1
    } else if rank_count(m, rank_from_index(i - 1)) > 0 {
        i - 1
    } else {
        highest_rank_index_below(m, i - 1)
    }
}

/// The highest rank present in the line.
pub open spec fn highest_rank(m: Multiset<PlayCard>) -> DeckCard {
    rank_from_index(highest_rank_index_below(m, 13))
}

/// The multiplicity table, filtered to ranks appearing at least twice and
/// listed in ascending face-value order, over positions below `i`.
pub open spec fn pairs_table_below(m: Multiset<PlayCard>, i: int) -> Seq<(DeckCard, u8)>
    decreases i,
{
    if i <= 0 {
        Seq::empty()
    } else {
        let rest = pairs_table_below(m, i - 1);
        let r = rank_from_index(i - 1);
        if rank_count(m, r) >= 2 {
            rest.push((r, rank_count(m, r) as u8))
        } else {
            rest
        }
    }
}

/// The full filtered multiplicity table of the line.
pub open spec fn pairs_table(m: Multiset<PlayCard>) -> Seq<(DeckCard, u8)> {
    pairs_table_below(m, 13)
}

/// The decision table for a line with no repeated rank.  Straight and flush
/// detection only applies to 5-card lines; a 3-card line is always a kicker.
pub open spec fn zero_groups_result(m: Multiset<PlayCard>) -> Result<
    Combination,
    ClassificationError,
> {
    if m.len() == 5 {
        if is_straight(m) && is_flush(m) {
            if straight_high(m) == DeckCard::Ace {
                Ok(Combination::RoyalFlush(flush_suit(m)))
            } else {
                Ok(
                    Combination::StraightFlush(
                        PlayCard { value: straight_high(m), suit: flush_suit(m) },
                    ),
                )
            }
        } else if is_straight(m) {
            Ok(Combination::Straight(straight_high(m)))
        } else if is_flush(m) {
            Ok(Combination::Flush(PlayCard { value: highest_rank(m), suit: flush_suit(m) }))
        } else {
            Ok(Combination::Kicker(highest_rank(m)))
        }
    } else {
        Ok(Combination::Kicker(highest_rank(m)))
    }
}

/// The decision table for a line with exactly one repeated rank `r` of
/// multiplicity `n`.  Four of a kind needs five cards; a 4-count on a 3-card
/// line, or any multiplicity outside 2..4, is an inconsistency.
pub open spec fn one_group_result(len: int, r: DeckCard, n: int) -> Result<
    Combination,
    ClassificationError,
> {
    if n == 2 {
        Ok(Combination::Pair(r))
    } else if n == 3 {
        Ok(Combination::ThreeOfAKind(r))
    } else if n == 4 {
        if len == 5 {
            Ok(Combination::FourOfAKind(r))
        } else {
            Err(ClassificationError::InconsistentHand)
        }
    } else {
        Err(ClassificationError::InconsistentHand)
    }
}

/// The decision table for a line with exactly two repeated ranks, handed the
/// two table entries.  Two pairs put the larger rank first; a full house is
/// keyed by which rank holds the triple.
pub open spec fn two_groups_result(len: int, a: (DeckCard, u8), b: (DeckCard, u8)) -> Result<
    Combination,
    ClassificationError,
> {
    if len == 3 {
        Err(ClassificationError::UnsupportedAtLength3)
    } else if a.1 + b.1 == 4 {
        if rank_index(a.0) >= rank_index(b.0) {
            Ok(Combination::TwoPairs { pair1: a.0, pair2: b.0 })
        } else {
            Ok(Combination::TwoPairs { pair1: b.0, pair2: a.0 })
        }
    } else if a.1 + b.1 == 5 {
        if a.1 == 3 {
            Ok(Combination::FullHouse { triple: a.0, double: b.0 })
        } else {
            Ok(Combination::FullHouse { triple: b.0, double: a.0 })
        }
    } else {
        Err(ClassificationError::InconsistentHand)
    }
}

/// What classification returns for a line with the given multiset of cards:
/// the decision table of the classifier, complete with its defensive error
/// branches.
pub open spec fn classify_multiset(m: Multiset<PlayCard>) -> Result<
    Combination,
    ClassificationError,
> {
    if m.len() != 3 && m.len() != 5 {
        Err(ClassificationError::InvalidLineLength)
    } else {
        let groups = pairs_table(m);
        if groups.len() == 0 {
            zero_groups_result(m)
        } else if groups.len() == 1 {
            one_group_result(m.len() as int, groups[0].0, groups[0].1 as int)
        } else if groups.len() == 2 {
            two_groups_result(m.len() as int, groups[0], groups[1])
        } else {
            Err(ClassificationError::InconsistentHand)
        }
    }
}

/// What classification returns for a line: a function of the multiset of its
/// cards alone, so reordering the line cannot change the result.
pub open spec fn spec_classify(s: Seq<PlayCard>) -> Result<Combination, ClassificationError> {
    classify_multiset(s.to_multiset())
}

/// How many cards of rank `r` a sequence of cards holds.
pub open spec fn seq_rank_count(s: Seq<PlayCard>, r: DeckCard) -> nat
    decreases s.len(),
{
    if s.len() == 0 {
        0
    } else {
        seq_rank_count(s.drop_last(), r) + (if s.last().value == r {
            1nat
        } else {
            0nat
        })
    }
}

/// Adding one card to the line raises the count of its rank by one and
/// leaves every other rank count unchanged.
pub proof fn lemma_rank_count_insert(m: Multiset<PlayCard>, c: PlayCard, r: DeckCard)
    ensures
        rank_count(m.insert(c), r) == rank_count(m, r) + (if c.value == r {
            1int
        } else {
            0int
        }),
{
    broadcast use vstd::multiset::group_multiset_axioms;

}

/// Counting ranks over the sequence agrees with counting them over its
/// multiset.
pub proof fn lemma_seq_rank_count(s: Seq<PlayCard>, r: DeckCard)
    ensures
        seq_rank_count(s, r) == rank_count(s.to_multiset(), r),
    decreases s.len(),
{
    broadcast use vstd::seq_lib::group_to_multiset_ensures;
    broadcast use vstd::multiset::group_multiset_axioms;

    if s.len() == 0 {
        assert(s.to_multiset().len() == 0);
    } else {
        lemma_seq_rank_count(s.drop_last(), r);
        assert(s =~= s.drop_last().push(s.last()));
        lemma_rank_count_insert(s.drop_last().to_multiset(), s.last(), r);
        assert(s.to_multiset() =~= s.drop_last().to_multiset().insert(s.last()));
    }
}

/// The rank counts over positions below `i`, summed.
pub open spec fn rank_counts_sum_below(m: Multiset<PlayCard>, i: int) -> nat
    decreases i,
{
    if i <= 0 {
        0
    } else {
        rank_counts_sum_below(m, i - 1) + rank_count(m, rank_from_index(i - 1))
    }
}

proof fn lemma_rank_counts_sum_zero(m: Multiset<PlayCard>, i: int)
    requires
        m.len() == 0,
        0 <= i <= 13,
    ensures
        rank_counts_sum_below(m, i) == 0,
    decreases i,
{
    broadcast use vstd::multiset::group_multiset_axioms;

    if i > 0 {
        lemma_rank_counts_sum_zero(m, i - 1);
    }
}

proof fn lemma_rank_counts_sum_insert(m: Multiset<PlayCard>, c: PlayCard, i: int)
    requires
        0 <= i <= 13,
    ensures
        rank_counts_sum_below(m.insert(c), i) == rank_counts_sum_below(m, i) + (if rank_index(
            c.value,
        ) < i {
            1int
        } else {
            0int
        }),
    decreases i,
{
    if i > 0 {
        lemma_rank_counts_sum_insert(m, c, i - 1);
        lemma_rank_count_insert(m, c, rank_from_index(i - 1));
        crate::poker::deck_card::lemma_rank_index_roundtrip(c.value);
        crate::poker::deck_card::lemma_rank_from_index_roundtrip(i - 1);
    }
}

/// The thirteen rank counts sum to the number of cards in the line.
pub proof fn lemma_rank_counts_sum_len(m: Multiset<PlayCard>)
    ensures
        rank_counts_sum_below(m, 13) == m.len(),
    decreases m.len(),
{
    broadcast use vstd::multiset::group_multiset_axioms;

    if m.len() == 0 {
        lemma_rank_counts_sum_zero(m, 13);
    } else {
        let c = m.choose();
        let m2 = m.remove(c);
        assert(m2.insert(c) =~= m);
        assert(m2.insert(c).len() == m2.len() + 1);
        lemma_rank_counts_sum_len(m2);
        lemma_rank_counts_sum_insert(m2, c, 13);
        crate::poker::deck_card::lemma_rank_index_roundtrip(c.value);
    }
}

/// The rank counts over positions `a` .. `b`, summed.
pub open spec fn rank_counts_sum_range(m: Multiset<PlayCard>, a: int, b: int) -> nat
    decreases b - a,
{
    if b <= a {
        0
    } else {
        rank_count(m, rank_from_index(a)) + rank_counts_sum_range(m, a + 1, b)
    }
}

proof fn lemma_sum_range_last(m: Multiset<PlayCard>, a: int, b: int)
    requires
        a < b,
    ensures
        rank_counts_sum_range(m, a, b) == rank_counts_sum_range(m, a, b - 1) + rank_count(
            m,
            rank_from_index(b - 1),
        ),
    decreases b - a,
{
    if a < b - 1 {
        lemma_sum_range_last(m, a + 1, b);
        assert(rank_counts_sum_range(m, a, b) == rank_count(m, rank_from_index(a))
            + rank_counts_sum_range(m, a + 1, b));
        assert(rank_counts_sum_range(m, a, b - 1) == rank_count(m, rank_from_index(a))
            + rank_counts_sum_range(m, a + 1, b - 1));
    } else {
        assert(rank_counts_sum_range(m, a, b) == rank_count(m, rank_from_index(a))
            + rank_counts_sum_range(m, a + 1, b));
        assert(rank_counts_sum_range(m, a + 1, b) == 0);
        assert(rank_counts_sum_range(m, a, b - 1) == 0);
    }
}

proof fn lemma_sum_below_split(m: Multiset<PlayCard>, a: int, b: int)
    requires
        0 <= a <= b,
    ensures
        rank_counts_sum_below(m, b) == rank_counts_sum_below(m, a) + rank_counts_sum_range(
            m,
            a,
            b,
        ),
    decreases b - a,
{
    if a < b {
        lemma_sum_below_split(m, a, b - 1);
        lemma_sum_range_last(m, a, b);
    }
}

proof fn lemma_sum_range_zero(m: Multiset<PlayCard>, a: int, b: int)
    requires
        rank_counts_sum_range(m, a, b) == 0,
    ensures
        forall|k: int| a <= k < b ==> rank_count(m, #[trigger] rank_from_index(k)) == 0,
    decreases b - a,
{
    if a < b {
        lemma_sum_range_zero(m, a + 1, b);
    }
}

/// A five-card line holding one card each of five consecutive ranks holds
/// nothing else: every rank outside the window is absent.
pub proof fn lemma_run_fills_line(m: Multiset<PlayCard>, lo: int)
    requires
        m.len() == 5,
        0 <= lo <= 8,
        has_run_at(m, lo),
    ensures
        forall|k: int|
            0 <= k < 13 && !(lo <= k < lo + 5) ==> rank_count(m, #[trigger] rank_from_index(k))
                == 0,
{
    lemma_rank_counts_sum_len(m);
    lemma_sum_below_split(m, lo + 5, 13);
    lemma_sum_below_split(m, lo, lo + 5);
    lemma_sum_below_split(m, 0, lo);
    assert(rank_counts_sum_below(m, 0) == 0);
    assert(rank_counts_sum_range(m, lo + 5, lo + 5) == 0);
    assert(rank_counts_sum_range(m, lo + 4, lo + 5) == 1) by {
        assert(rank_count(m, rank_from_index(lo + 4)) == 1);
    }
    assert(rank_counts_sum_range(m, lo + 3, lo + 5) == 2) by {
        assert(rank_count(m, rank_from_index(lo + 3)) == 1);
    }
    assert(rank_counts_sum_range(m, lo + 2, lo + 5) == 3) by {
        assert(rank_count(m, rank_from_index(lo + 2)) == 1);
    }
    assert(rank_counts_sum_range(m, lo + 1, lo + 5) == 4) by {
        assert(rank_count(m, rank_from_index(lo + 1)) == 1);
    }
    assert(rank_counts_sum_range(m, lo, lo + 5) == 5) by {
        assert(rank_count(m, rank_from_index(lo)) == 1);
    }
    assert(rank_counts_sum_range(m, 0, lo) == 0);
    assert(rank_counts_sum_range(m, lo + 5, 13) == 0);
    lemma_sum_range_zero(m, 0, lo);
    lemma_sum_range_zero(m, lo + 5, 13);
}

/// What `highest_rank_index_below` finds: the largest in-range position with
/// a card present, or -1 when there is none.
pub proof fn lemma_highest_rank_index_below(m: Multiset<PlayCard>, i: int)
    requires
        0 <= i <= 13,
    ensures
        forall|k: int|
            highest_rank_index_below(m, i) < k < i ==> rank_count(
                m,
                #[trigger] rank_from_index(k),
            ) == 0,
        highest_rank_index_below(m, i) >= 0 ==> highest_rank_index_below(m, i) < i && rank_count(
            m,
            rank_from_index(highest_rank_index_below(m, i)),
        ) > 0,
        highest_rank_index_below(m, i) >= -1,
    decreases i,
{
    if i > 0 {
        lemma_highest_rank_index_below(m, i - 1);
    }
}

/// A position with a card present and none above it is the highest rank.
pub proof fn lemma_highest_rank_is(m: Multiset<PlayCard>, j: int)
    requires
        0 <= j < 13,
        rank_count(m, rank_from_index(j)) > 0,
        forall|k: int| j < k < 13 ==> rank_count(m, #[trigger] rank_from_index(k)) == 0,
    ensures
        highest_rank_index_below(m, 13) == j,
        highest_rank(m) == rank_from_index(j),
{
    lemma_highest_rank_index_below(m, 13);
    let h = highest_rank_index_below(m, 13);
    if h < j {
        assert(rank_count(m, rank_from_index(j)) == 0);
    }
    if h > j {
        assert(rank_count(m, rank_from_index(h)) == 0);
    }
}

/// The card a scan settles on has the highest rank present in the line.
pub proof fn lemma_spec_highest_value(s: Seq<PlayCard>)
    requires
        s.len() > 0,
    ensures
        spec_highest(s).value == highest_rank(s.to_multiset()),
{
    broadcast use vstd::seq_lib::group_to_multiset_ensures;
    broadcast use vstd::multiset::group_multiset_axioms;

    let m = s.to_multiset();
    let top = spec_highest(s);
    crate::poker::play_card::lemma_spec_highest_properties(s);
    lemma_seq_rank_count(s, top.value);
    let j = rank_index(top.value);
    crate::poker::deck_card::lemma_rank_index_roundtrip(top.value);
    assert(m.count(top) > 0);
    assert(rank_count(m, top.value) >= m.count(
        PlayCard { value: top.value, suit: top.suit },
    )) by {
        if top.suit == Suit::Hearts {
        } else if top.suit == Suit::Diamonds {
        } else if top.suit == Suit::Clubs {
        } else {
        }
    }
    assert forall|k: int| j < k < 13 implies rank_count(m, #[trigger] rank_from_index(k))
        == 0 by {
        let r = rank_from_index(k);
        crate::poker::deck_card::lemma_rank_from_index_roundtrip(k);
        if rank_count(m, r) > 0 {
            lemma_rank_present_card(s, r);
        }
    }
    lemma_highest_rank_is(m, j);
}

/// A rank counted as present is the value of some card of the sequence.
proof fn lemma_rank_present_card(s: Seq<PlayCard>, r: DeckCard)
    requires
        rank_count(s.to_multiset(), r) > 0,
    ensures
        exists|i: int| 0 <= i < s.len() && #[trigger] s[i].value == r,
{
    broadcast use vstd::seq_lib::group_to_multiset_ensures;
    broadcast use vstd::multiset::group_multiset_axioms;

    let m = s.to_multiset();
    let c = if m.count(PlayCard { value: r, suit: Suit::Hearts }) > 0 {
        PlayCard { value: r, suit: Suit::Hearts }
    } else if m.count(PlayCard { value: r, suit: Suit::Diamonds }) > 0 {
        PlayCard { value: r, suit: Suit::Diamonds }
    } else if m.count(PlayCard { value: r, suit: Suit::Clubs }) > 0 {
        PlayCard { value: r, suit: Suit::Clubs }
    } else {
        PlayCard { value: r, suit: Suit::Spades }
    };
    assert(m.count(c) > 0);
    assert(s.contains(c));
    let i = choose|i: int| 0 <= i < s.len() && s[i] == c;
    assert(s[i].value == r);
}

/// Every entry of the table is a rank counted at least twice, entries are in
/// ascending face-value order, and every rank counted at least twice is in.
pub proof fn lemma_pairs_table_properties(m: Multiset<PlayCard>, i: int)
    requires
        0 <= i <= 13,
    ensures
        forall|j: int|
            0 <= j < pairs_table_below(m, i).len() ==> {
                let e = #[trigger] pairs_table_below(m, i)[j];
                &&& 0 <= rank_index(e.0) < i
                &&& e.1 == rank_count(m, e.0) as u8
                &&& rank_count(m, e.0) >= 2
            },
        forall|j: int, k: int|
            0 <= j < k < pairs_table_below(m, i).len() ==> rank_index(
                pairs_table_below(m, i)[j].0,
            ) < rank_index(pairs_table_below(m, i)[k].0),
        forall|r: DeckCard|
            0 <= rank_index(r) < i && #[trigger] rank_count(m, r) >= 2 ==> pairs_table_below(
                m,
                i,
            ).contains((r, rank_count(m, r) as u8)),
    decreases i,
{
    if i > 0 {
        lemma_pairs_table_properties(m, i - 1);
        let rest = pairs_table_below(m, i - 1);
        let r = rank_from_index(i - 1);
        crate::poker::deck_card::lemma_rank_from_index_roundtrip(i - 1);
        assert forall|q: DeckCard|
            0 <= rank_index(q) < i && #[trigger] rank_count(m, q) >= 2 implies pairs_table_below(
            m,
            i,
        ).contains((q, rank_count(m, q) as u8)) by {
            crate::poker::deck_card::lemma_rank_index_roundtrip(q);
            if rank_index(q) < i - 1 {
                assert(rest.contains((q, rank_count(m, q) as u8)));
                let j = choose|j: int| 0 <= j < rest.len() && rest[j] == (q, rank_count(m, q) as u8);
                assert(pairs_table_below(m, i)[j] == (q, rank_count(m, q) as u8));
            } else {
                assert(q == r);
                assert(pairs_table_below(m, i).last() == (q, rank_count(m, q) as u8));
            }
        }
    }
}

/// A line in which no rank repeats has an empty table.
pub proof fn lemma_pairs_table_empty(m: Multiset<PlayCard>, i: int)
    requires
        0 <= i <= 13,
        forall|r: DeckCard| #[trigger] rank_count(m, r) <= 1,
    ensures
        pairs_table_below(m, i).len() == 0,
    decreases i,
{
    if i > 0 {
        lemma_pairs_table_empty(m, i - 1);
    }
}

/// In a flush every card wears the flush's suit, so the chosen suit is it.
pub proof fn lemma_flush_suit_unique(m: Multiset<PlayCard>, su: Suit)
    requires
        m.len() > 0,
        all_one_suit(m, su),
    ensures
        flush_suit(m) == su,
{
    broadcast use vstd::multiset::group_multiset_axioms;

    let c = m.choose();
    assert(m.count(c) > 0);
    let su2 = flush_suit(m);
    assert(all_one_suit(m, su2));
    assert(c.suit == su && c.suit == su2);
}

} // verus!
