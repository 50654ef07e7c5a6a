//! A playing card: a rank paired with a suit.

use vstd::prelude::*;

use crate::poker::deck_card::DeckCard;
use crate::poker::deck_card::rank_index;
use crate::poker::suit::Suit;

verus! {

/// An immutable playing card.
#[derive(Debug, Clone, Copy, PartialEq, Eq, Structural)]
pub struct PlayCard {
    pub value: DeckCard,
    pub suit: Suit,
}

/// The card a left-to-right scan keeping ties on the right settles on: the
/// last card of the sequence whose rank is maximal.
pub open spec fn spec_highest(s: Seq<PlayCard>) -> PlayCard
    recommends
        s.len() > 0,
    decreases s.len(),
{
    if s.len() <= 1 {
        s[0]
    } else {
        let prev = spec_highest(s.drop_last());
        if rank_index(s.last().value) >= rank_index(prev.value) {
            s.last()
        } else {
            prev
        }
    }
}

/// The selected card occurs in the sequence and no card outranks it.
pub proof fn lemma_spec_highest_properties(s: Seq<PlayCard>)
    requires
        s.len() > 0,
    ensures
        s.contains(spec_highest(s)),
        forall|i: int|
            0 <= i < s.len() ==> rank_index(s[i].value) <= rank_index(spec_highest(s).value),
    decreases s.len(),
{
    if s.len() > 1 {
        lemma_spec_highest_properties(s.drop_last());
        let prev = spec_highest(s.drop_last());
        assert(s.drop_last().contains(prev));
        let j = choose|j: int| 0 <= j < s.drop_last().len() && s.drop_last()[j] == prev;
        assert(s[j] == prev);
        assert forall|i: int|
            0 <= i < s.len() implies rank_index(s[i].value) <= rank_index(
            spec_highest(s).value,
        ) by {
            if i < s.len() - 1 {
                assert(s.drop_last()[i] == s[i]);
            }
        }
        if rank_index(s.last().value) >= rank_index(prev.value) {
            assert(s[s.len() - 1] == spec_highest(s));
        }
    }
}

impl PlayCard {
    /// The card denoted by a two-character string: a rank symbol followed by
    /// a suit character.  Anything else is rejected with a message.
    pub open spec fn spec_from_string(sv: Seq<char>) -> Result<PlayCard, Seq<char>> {
        if sv.len() != 2 {
            Err("Failed to parse "@ + sv + "length should be 2"@)
        } else {
            match DeckCard::spec_from_string(sv.subrange(0, 1)) {
                Ok(value) => match Suit::spec_from_char(sv[1]) {
                    Ok(suit) => Ok(PlayCard { value, suit }),
                    Err(e) => Err(e),
                },
                Err(e) => Err(e),
            }
        }
    }

    /// Parses a card from its two-character notation, such as `Ks` or `Th`.
    pub fn from_string(input: &str) -> (r: Result<PlayCard, String>)
        ensures
            match r {
                Ok(v) => PlayCard::spec_from_string(input@) == Ok::<PlayCard, Seq<char>>(v),
                Err(e) => PlayCard::spec_from_string(input@) == Err::<PlayCard, Seq<char>>(e@),
            },
    {
        if input.unicode_len() != 2 {
            let mut msg = String::from_str("Failed to parse ");
            msg.append(input);
            msg.append("length should be 2");
            return Err(msg);
        }
        let value = match DeckCard::from_string(input.substring_char(0, 1)) {
            Ok(v) => v,
            Err(e) => {
                return Err(e);
            },
        };
        let suit = match Suit::from_string(input.get_char(1)) {
            Ok(s) => s,
            Err(e) => {
                return Err(e);
            },
        };
        Ok(PlayCard { value, suit })
    }

    /// Returns the card with the maximum rank; among cards of equal rank the
    /// one scanned last wins, so callers must not rely on which suit comes
    /// back from a tie.
    pub fn calc_highest_card(cards: &[PlayCard]) -> (r: PlayCard)
        requires
            cards@.len() > 0,
        ensures
            r == spec_highest(cards@),
    {
        let mut best = cards[0];
        let mut i: usize = 1;
        while i < cards.len()
            invariant
                1 <= i <= cards@.len(),
                best == spec_highest(cards@.take(i as int)),
            decreases cards@.len() - i,
        {
            proof {
                assert(cards@.take(i + 1).drop_last() =~= cards@.take(i as int));
                assert(cards@.take(i + 1).last() == cards@[i as int]);
            }
            if cards[i].value.index() >= best.value.index() {
                best = cards[i];
            }
            i = i + 1;
        }
        proof {
            assert(cards@.take(cards@.len() as int) =~= cards@);
        }
        best
    }

    /// The card's name: its rank, `of`, and its suit.
    pub open spec fn spec_name(self) -> Seq<char> {
        self.value.spec_name() + " of "@ + self.suit.spec_name()
    }

    /// Renders the card's name.
    pub fn name(&self) -> (s: String)
        ensures
            s@ == self.spec_name(),
    {
        let mut s = self.value.name();
        s.append(" of ");
        let suit_name = self.suit.name();
        s.append(suit_name.as_str());
        s
    }
}

} // verus!
