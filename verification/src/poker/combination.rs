//! The classifier: from a line of cards to its ranked combination.

use vstd::prelude::*;

use crate::poker::deck_card::DeckCard;
use crate::poker::deck_card::rank_from_index;
use crate::poker::deck_card::rank_index;
use crate::poker::model::is_flush;
use crate::poker::model::pairs_table;
use crate::poker::model::rank_count;
use crate::poker::model::seq_rank_count;
use crate::poker::play_card::PlayCard;
use crate::poker::play_card::spec_highest;
use crate::poker::suit::Suit;

verus! {

/// A classified hand together with its tie-break information.
#[derive(Debug, Clone, Copy, PartialEq, Eq, Structural)]
pub enum Combination {
    /// No pair, straight or flush; carries the highest rank present.
    Kicker(DeckCard),
    /// Exactly one rank appears twice.
    Pair(DeckCard),
    /// Two distinct ranks each appear twice; `pair1` is the larger rank.
    TwoPairs { pair1: DeckCard, pair2: DeckCard },
    /// One rank appears three times.
    ThreeOfAKind(DeckCard),
    /// Five consecutive ranks, not all one suit; carries the high rank,
    /// which is `Five` for the wheel.
    Straight(DeckCard),
    /// Five cards of one suit, not consecutive; carries the highest card.
    Flush(PlayCard),
    /// One rank three times and another twice.
    FullHouse { triple: DeckCard, double: DeckCard },
    /// One rank appears four times.
    FourOfAKind(DeckCard),
    /// Five consecutive ranks of one suit, high card below `Ace`.
    StraightFlush(PlayCard),
    /// The ace-high straight flush; carries its suit.
    RoyalFlush(Suit),
}

/// Why a line could not be classified.
#[derive(Debug, Clone, Copy, PartialEq, Eq, Structural)]
pub enum ClassificationError {
    /// The line's length is neither 3 nor 5.
    InvalidLineLength,
    /// A shape that only a 5-card line can hold was seen on a 3-card line.
    UnsupportedAtLength3,
    /// The rank multiplicities had a shape the algorithm does not model.
    InconsistentHand,
}

impl ClassificationError {
    /// The error's message.
    pub open spec fn spec_message(self) -> Seq<char> {
        match self {
            ClassificationError::InvalidLineLength => "Invalid number of cards passed"@,
            ClassificationError::UnsupportedAtLength3 => (
            "Found two pairs or full house on 3-card line"@),
            ClassificationError::InconsistentHand => "Inconsistent hand"@,
        }
    }

    /// Renders the error's message.
    pub fn message(&self) -> (s: String)
        ensures
            s@ == self.spec_message(),
    {
        match self {
            ClassificationError::InvalidLineLength => (
            String::from_str("Invalid number of cards passed")),
            ClassificationError::UnsupportedAtLength3 => (
            String::from_str("Found two pairs or full house on 3-card line")),
            ClassificationError::InconsistentHand => String::from_str("Inconsistent hand"),
        }
    }
}

impl Combination {
    /// The combination's rendering: its variant's name around the names of
    /// the ranks, card or suit it carries.
    pub open spec fn spec_describe(self) -> Seq<char> {
        match self {
            Combination::Kicker(r) => "Kicker("@ + r.spec_name() + ")"@,
            Combination::Pair(r) => "Pair("@ + r.spec_name() + ")"@,
            Combination::TwoPairs { pair1, pair2 } => "TwoPairs("@ + pair1.spec_name() + ", "@
                + pair2.spec_name() + ")"@,
            Combination::ThreeOfAKind(r) => "ThreeOfAKind("@ + r.spec_name() + ")"@,
            Combination::Straight(r) => "Straight("@ + r.spec_name() + ")"@,
            Combination::Flush(c) => "Flush("@ + c.spec_name() + ")"@,
            Combination::FullHouse { triple, double } => "FullHouse("@ + triple.spec_name()
                + ", "@ + double.spec_name() + ")"@,
            Combination::FourOfAKind(r) => "FourOfAKind("@ + r.spec_name() + ")"@,
            Combination::StraightFlush(c) => "StraightFlush("@ + c.spec_name() + ")"@,
            Combination::RoyalFlush(su) => "RoyalFlush("@ + su.spec_name() + ")"@,
        }
    }

    /// Renders the combination.
    pub fn describe(&self) -> (s: String)
        ensures
            s@ == self.spec_describe(),
    {
        match self {
            Combination::Kicker(r) => {
                let mut s = String::from_str("Kicker(");
                let n = r.name();
                s.append(n.as_str());
                s.append(")");
                s
            },
            Combination::Pair(r) => {
                let mut s = String::from_str("Pair(");
                let n = r.name();
                s.append(n.as_str());
                s.append(")");
                s
            },
            Combination::TwoPairs { pair1, pair2 } => {
                let mut s = String::from_str("TwoPairs(");
                let n1 = pair1.name();
                s.append(n1.as_str());
                s.append(", ");
                let n2 = pair2.name();
                s.append(n2.as_str());
                s.append(")");
                s
            },
            Combination::ThreeOfAKind(r) => {
                let mut s = String::from_str("ThreeOfAKind(");
                let n = r.name();
                s.append(n.as_str());
                s.append(")");
                s
            },
            Combination::Straight(r) => {
                let mut s = String::from_str("Straight(");
                let n = r.name();
                s.append(n.as_str());
                s.append(")");
                s
            },
            Combination::Flush(c) => {
                let mut s = String::from_str("Flush(");
                let n = c.name();
                s.append(n.as_str());
                s.append(")");
                s
            },
            Combination::FullHouse { triple, double } => {
                let mut s = String::from_str("FullHouse(");
                let n1 = triple.name();
                s.append(n1.as_str());
                s.append(", ");
                let n2 = double.name();
                s.append(n2.as_str());
                s.append(")");
                s
            },
            Combination::FourOfAKind(r) => {
                let mut s = String::from_str("FourOfAKind(");
                let n = r.name();
                s.append(n.as_str());
                s.append(")");
                s
            },
            Combination::StraightFlush(c) => {
                let mut s = String::from_str("StraightFlush(");
                let n = c.name();
                s.append(n.as_str());
                s.append(")");
                s
            },
            Combination::RoyalFlush(su) => {
                let mut s = String::from_str("RoyalFlush(");
                let n = su.name();
                s.append(n.as_str());
                s.append(")");
                s
            },
        }
    }
}

/// Tallies, per rank, how many of the line's cards hold it.
fn rank_counts(cards: &[PlayCard]) -> (counts: Vec<u8>)
    requires
        cards@.len() <= 255,
    ensures
        counts@.len() == 13,
        forall|k: int|
            0 <= k < 13 ==> #[trigger] counts@[k] as nat == rank_count(
                cards@.to_multiset(),
                rank_from_index(k),
            ),
        forall|k: int| 0 <= k < 13 ==> #[trigger] counts@[k] as nat <= cards@.len(),
{
    let mut counts: Vec<u8> = Vec::new();
    let mut k: usize = 0;
    while k < 13
        invariant
            k <= 13,
            counts@.len() == k,
            forall|j: int| 0 <= j < k ==> #[trigger] counts@[j] == 0u8,
        decreases 13 - k,
    {
        counts.push(0);
        k = k + 1;
    }
    let mut i: usize = 0;
    while i < cards.len()
        invariant
            i <= cards@.len(),
            cards@.len() <= 255,
            counts@.len() == 13,
            forall|k: int|
                0 <= k < 13 ==> #[trigger] counts@[k] as nat == seq_rank_count(
                    cards@.take(i as int),
                    rank_from_index(k),
                ),
            forall|k: int| 0 <= k < 13 ==> #[trigger] counts@[k] as nat <= i,
        decreases cards@.len() - i,
    {
        let ghost prev = counts@;
        let idx = cards[i].value.index();
        proof {
            crate::poker::deck_card::lemma_rank_index_roundtrip(cards@[i as int].value);
        }
        counts[idx] = counts[idx] + 1;
        proof {
            let taken = cards@.take(i + 1);
            assert(taken.drop_last() =~= cards@.take(i as int));
            assert(taken.last() == cards@[i as int]);
            assert forall|k: int|
                0 <= k < 13 implies #[trigger] counts@[k] as nat == seq_rank_count(
                taken,
                rank_from_index(k),
            ) by {
                if k == idx as int {
                    assert(taken.last().value == rank_from_index(k));
                } else {
                    assert(counts@[k] == prev[k]);
                    crate::poker::deck_card::lemma_rank_from_index_roundtrip(k);
                    assert(taken.last().value != rank_from_index(k));
                }
            }
        }
        i = i + 1;
    }
    proof {
        assert(cards@.take(cards@.len() as int) =~= cards@);
        assert forall|k: int|
            0 <= k < 13 implies #[trigger] counts@[k] as nat == rank_count(
            cards@.to_multiset(),
            rank_from_index(k),
        ) by {
            crate::poker::model::lemma_seq_rank_count(cards@, rank_from_index(k));
        }
    }
    counts
}

impl Combination {
    /// Detects a flush: a 5-card line whose cards all share one suit.  On a
    /// flush, hands back the line's highest card; the flush's suit is the
    /// returned card's suit.
    pub fn check_flush(cards: &[PlayCard]) -> (r: Option<PlayCard>)
        ensures
            r == (if is_flush(cards@.to_multiset()) {
                Some(spec_highest(cards@))
            } else {
                None
            }),
    {
        if cards.len() != 5 {
            proof {
                broadcast use vstd::seq_lib::group_to_multiset_ensures;

                assert(cards@.to_multiset().len() != 5);
            }
            return None;
        }
        let mut i: usize = 1;
        while i < cards.len()
            invariant
                1 <= i <= cards@.len(),
                cards@.len() == 5,
                forall|j: int| 0 <= j < i ==> (#[trigger] cards@[j]).suit == cards@[0].suit,
            decreases cards@.len() - i,
        {
            if cards[i].suit != cards[0].suit {
                proof {
                    broadcast use vstd::seq_lib::group_to_multiset_ensures;

                    let m = cards@.to_multiset();
                    assert(cards@.contains(cards@[i as int]));
                    assert(cards@.contains(cards@[0]));
                    assert forall|su: Suit| !crate::poker::model::all_one_suit(m, su) by {
                        if su == cards@[0].suit {
                            assert(m.count(cards@[i as int]) > 0);
                        } else {
                            assert(m.count(cards@[0]) > 0);
                        }
                    }
                }
                return None;
            }
            i = i + 1;
        }
        proof {
            broadcast use vstd::seq_lib::group_to_multiset_ensures;

            let m = cards@.to_multiset();
            assert forall|c: PlayCard| #[trigger] m.count(c) > 0 implies c.suit
                == cards@[0].suit by {
                assert(cards@.contains(c));
            }
            assert(crate::poker::model::all_one_suit(m, cards@[0].suit));
            assert(is_flush(m));
        }
        Some(PlayCard::calc_highest_card(cards))
    }

    /// Builds the rank-multiplicity table of the line, filtered to ranks
    /// appearing more than once, in ascending face-value order.
    pub fn get_pairs(cards: &[PlayCard]) -> (pairs: Vec<(DeckCard, u8)>)
        requires
            cards@.len() <= 255,
        ensures
            pairs@ == pairs_table(cards@.to_multiset()),
    {
        let counts = rank_counts(cards);
        let mut pairs: Vec<(DeckCard, u8)> = Vec::new();
        let mut k: usize = 0;
        while k < 13
            invariant
                k <= 13,
                counts@.len() == 13,
                cards@.len() <= 255,
                forall|j: int|
                    0 <= j < 13 ==> #[trigger] counts@[j] as nat == rank_count(
                        cards@.to_multiset(),
                        rank_from_index(j),
                    ),
                pairs@ == crate::poker::model::pairs_table_below(cards@.to_multiset(), k as int),
            decreases 13 - k,
        {
            if counts[k] >= 2 {
                pairs.push((DeckCard::from_index(k), counts[k]));
                proof {
                    let m = cards@.to_multiset();
                    assert(rank_count(m, rank_from_index(k as int)) as u8 == counts@[k as int]);
                }
            }
            k = k + 1;
        }
        pairs
    }

    /// Detects a straight: a 5-card line of five consecutive ranks, the
    /// wheel included.  On a straight, hands back its high rank, which is
    /// `Five` for the wheel.
    pub fn check_straight(cards: &[PlayCard]) -> (r: Option<DeckCard>)
        ensures
            r == (if crate::poker::model::is_straight(cards@.to_multiset()) {
                Some(crate::poker::model::straight_high(cards@.to_multiset()))
            } else {
                None
            }),
    {
        if cards.len() != 5 {
            proof {
                broadcast use vstd::seq_lib::group_to_multiset_ensures;

                assert(cards@.to_multiset().len() != 5);
            }
            return None;
        }
        let counts = rank_counts(cards);
        if counts[0] == 1 && counts[1] == 1 && counts[2] == 1 && counts[3] == 1 && counts[12]
            == 1 {
            proof {
                broadcast use vstd::seq_lib::group_to_multiset_ensures;

                let m = cards@.to_multiset();
                assert(m.len() == 5);
                assert(crate::poker::model::is_wheel(m));
            }
            return Some(DeckCard::Five);
        }
        let mut lo: usize = 0;
        while lo <= 8
            invariant
                lo <= 9,
                cards@.len() == 5,
                counts@.len() == 13,
                forall|j: int|
                    0 <= j < 13 ==> #[trigger] counts@[j] as nat == rank_count(
                        cards@.to_multiset(),
                        rank_from_index(j),
                    ),
                !crate::poker::model::is_wheel(cards@.to_multiset()),
                forall|l: int|
                    0 <= l < lo ==> !crate::poker::model::has_run_at(cards@.to_multiset(), l),
            decreases 9 - lo,
        {
            if counts[lo] == 1 && counts[lo + 1] == 1 && counts[lo + 2] == 1 && counts[lo + 3]
                == 1 && counts[lo + 4] == 1 {
                proof {
                    broadcast use vstd::seq_lib::group_to_multiset_ensures;

                    let m = cards@.to_multiset();
                    assert(m.len() == 5);
                    assert forall|k: int|
                        lo <= k < lo + 5 implies rank_count(m, #[trigger] rank_from_index(k))
                        == 1 by {
                        assert(counts@[k] as nat == rank_count(m, rank_from_index(k)));
                    }
                    assert(crate::poker::model::has_run_at(m, lo as int));
                    assert(crate::poker::model::is_straight(m));
                    crate::poker::model::lemma_run_fills_line(m, lo as int);
                    crate::poker::model::lemma_highest_rank_is(m, lo + 4);
                }
                return Some(DeckCard::from_index(lo + 4));
            }
            proof {
                let m = cards@.to_multiset();
                assert(!crate::poker::model::has_run_at(m, lo as int)) by {
                    if counts@[lo as int] as nat != 1 {
                        assert(rank_count(m, rank_from_index(lo as int)) != 1);
                    } else if counts@[lo + 1] as nat != 1 {
                        assert(rank_count(m, rank_from_index(lo + 1)) != 1);
                    } else if counts@[lo + 2] as nat != 1 {
                        assert(rank_count(m, rank_from_index(lo + 2)) != 1);
                    } else if counts@[lo + 3] as nat != 1 {
                        assert(rank_count(m, rank_from_index(lo + 3)) != 1);
                    } else {
                        assert(rank_count(m, rank_from_index(lo + 4)) != 1);
                    }
                }
            }
            lo = lo + 1;
        }
        proof {
            broadcast use vstd::seq_lib::group_to_multiset_ensures;

            let m = cards@.to_multiset();
            assert(!crate::poker::model::is_straight(m)) by {
                assert forall|l: int| 0 <= l <= 8 implies !crate::poker::model::has_run_at(
                    m,
                    l,
                ) by {}
            }
        }
        None
    }

    /// Classifies a line of exactly 3 or exactly 5 cards into its ranked
    /// combination, or reports why it cannot be classified.  The result is
    /// the decision table [`spec_classify`](crate::poker::model::spec_classify)
    /// applied to the line, and so depends only on the multiset of its cards.
    pub fn from_vec_cards(cards: &[PlayCard]) -> (r: Result<Combination, ClassificationError>)
        ensures
            r == crate::poker::model::spec_classify(cards@),
    {
        proof {
            broadcast use vstd::seq_lib::group_to_multiset_ensures;
            broadcast use vstd::multiset::group_multiset_axioms;

            assert(cards@.to_multiset().len() == cards@.len());
        }
        let ghost m = cards@.to_multiset();
        if cards.len() != 3 && cards.len() != 5 {
            return Err(ClassificationError::InvalidLineLength);
        }
        let pairs = Self::get_pairs(cards);
        proof {
            crate::poker::model::lemma_pairs_table_properties(m, 13);
        }
        if pairs.len() == 0 {
            if cards.len() == 3 {
                let hc = PlayCard::calc_highest_card(cards);
                proof {
                    crate::poker::model::lemma_spec_highest_value(cards@);
                }
                Ok(Combination::Kicker(hc.value))
            } else {
                let straight = Self::check_straight(cards);
                let flush = Self::check_flush(cards);
                proof {
                    if is_flush(m) {
                        assert(crate::poker::model::all_one_suit(
                            m,
                            crate::poker::model::flush_suit(m),
                        ));
                        crate::poker::play_card::lemma_spec_highest_properties(cards@);
                        assert(cards@.contains(spec_highest(cards@)));
                        assert(m.count(spec_highest(cards@)) > 0);
                        crate::poker::model::lemma_spec_highest_value(cards@);
                    }
                }
                match (straight, flush) {
                    (Some(high_rank), Some(high_card)) => {
                        if high_rank == DeckCard::Ace {
                            Ok(Combination::RoyalFlush(high_card.suit))
                        } else {
                            Ok(
                                Combination::StraightFlush(
                                    PlayCard { value: high_rank, suit: high_card.suit },
                                ),
                            )
                        }
                    },
                    (Some(high_rank), None) => Ok(Combination::Straight(high_rank)),
                    (None, Some(high_card)) => Ok(Combination::Flush(high_card)),
                    (None, None) => {
                        let hc = PlayCard::calc_highest_card(cards);
                        proof {
                            crate::poker::model::lemma_spec_highest_value(cards@);
                        }
                        Ok(Combination::Kicker(hc.value))
                    },
                }
            }
        } else if pairs.len() == 1 {
            let deck_card = pairs[0].0;
            let counter = pairs[0].1;
            if counter == 2 {
                Ok(Combination::Pair(deck_card))
            } else if counter == 3 {
                Ok(Combination::ThreeOfAKind(deck_card))
            } else if counter == 4 {
                if cards.len() == 5 {
                    Ok(Combination::FourOfAKind(deck_card))
                } else {
                    Err(ClassificationError::InconsistentHand)
                }
            } else {
                Err(ClassificationError::InconsistentHand)
            }
        } else if pairs.len() == 2 {
            if cards.len() == 3 {
                Err(ClassificationError::UnsupportedAtLength3)
            } else {
                proof {
                    assert(rank_count(m, pairs@[0].0) <= 20);
                    assert(rank_count(m, pairs@[1].0) <= 20);
                    assert(pairs@[0].1 <= 20 && pairs@[1].1 <= 20);
                }
                let counter_sum = pairs[0].1 + pairs[1].1;
                if counter_sum == 4 {
                    proof {
                        assert(pairs@[0].1 == 2 && pairs@[1].1 == 2);
                        assert(pairs@.drop_last() =~= seq![pairs@[0]]);
                        assert(crate::helper::collection::spec_max_entry(pairs@.drop_last())
                            == pairs@[0]);
                        assert(crate::helper::collection::spec_max_entry(pairs@) == pairs@[1]);
                        assert(crate::helper::collection::spec_min_entry(pairs@.drop_last())
                            == pairs@[0]);
                        assert(crate::helper::collection::spec_min_entry(pairs@) == pairs@[0]);
                        assert(rank_index(pairs@[0].0) < rank_index(pairs@[1].0));
                    }
                    let pair1 = crate::helper::collection::hashmap_key_max_by_value(
                        pairs.as_slice(),
                    );
                    let pair2 = crate::helper::collection::hashmap_key_min_by_value(
                        pairs.as_slice(),
                    );
                    Ok(Combination::TwoPairs { pair1, pair2 })
                } else if counter_sum == 5 {
                    proof {
                        assert((pairs@[0].1 == 2 && pairs@[1].1 == 3) || (pairs@[0].1 == 3
                            && pairs@[1].1 == 2));
                        assert(pairs@.drop_first() =~= seq![pairs@[1]]);
                        let rest = pairs@.drop_first();
                        assert(rest.first() == pairs@[1]);
                        assert(rest.drop_first().len() == 0);
                        assert(crate::helper::collection::spec_first_key_with_value(
                            rest.drop_first(),
                            3u8,
                        ) == None::<DeckCard>);
                        assert(crate::helper::collection::spec_first_key_with_value(
                            rest.drop_first(),
                            2u8,
                        ) == None::<DeckCard>);
                        assert(crate::helper::collection::spec_first_key_with_value(
                            pairs@.drop_first(),
                            3u8,
                        ) == (if pairs@[1].1 == 3 {
                            Some(pairs@[1].0)
                        } else {
                            None::<DeckCard>
                        }));
                        assert(crate::helper::collection::spec_first_key_with_value(
                            pairs@.drop_first(),
                            2u8,
                        ) == (if pairs@[1].1 == 2 {
                            Some(pairs@[1].0)
                        } else {
                            None::<DeckCard>
                        }));
                    }
                    let triple = crate::helper::collection::hashmap_get_key_by_value(
                        pairs.as_slice(),
                        3,
                    );
                    let double = crate::helper::collection::hashmap_get_key_by_value(
                        pairs.as_slice(),
                        2,
                    );
                    match (triple, double) {
                        (Some(t), Some(d)) => Ok(Combination::FullHouse { triple: t, double: d }),
                        _ => {
                            proof {
                                assert(false);
                            }
                            Err(ClassificationError::InconsistentHand)
                        },
                    }
                } else {
                    Err(ClassificationError::InconsistentHand)
                }
            }
        } else {
            Err(ClassificationError::InconsistentHand)
        }
    }
}

} // verus!
