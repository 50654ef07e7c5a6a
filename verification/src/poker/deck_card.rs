//! The thirteen card ranks, ordered by face value.

use vstd::prelude::*;

verus! {

/// A card rank, `Two` lowest through `Ace` highest.  The ordering by face
/// value is exposed through [`DeckCard::index`]; `Ace` ranks low only in the
/// wheel straight, which the classifier special-cases.
#[derive(Debug, Clone, Copy, PartialEq, Eq, Hash, Structural)]
pub enum DeckCard {
    Two,
    Three,
    Four,
    Five,
    Six,
    Seven,
    Eight,
    Nine,
    Ten,
    Jack,
    Queen,
    King,
    Ace,
}

/// The face-value position of a rank: 0 for `Two` through 12 for `Ace`.
pub open spec fn rank_index(r: DeckCard) -> int {
    match r {
        DeckCard::Two => 0,
        DeckCard::Three => 1,
        DeckCard::Four => 2,
        DeckCard::Five => 3,
        DeckCard::Six => 4,
        DeckCard::Seven => 5,
        DeckCard::Eight => 6,
        DeckCard::Nine => 7,
        DeckCard::Ten => 8,
        DeckCard::Jack => 9,
        DeckCard::Queen => 10,
        DeckCard::King => 11,
        DeckCard::Ace => 12,
    }
}

/// The rank at a face-value position; positions outside 0..13 map to `Ace`,
/// but all users stay inside that range.
pub open spec fn rank_from_index(i: int) -> DeckCard {
    if i == 0 {
        DeckCard::Two
    } else if i == 1 {
        DeckCard::Three
    } else if i == 2 {
        DeckCard::Four
    } else if i == 3 {
        DeckCard::Five
    } else if i == 4 {
        DeckCard::Six
    } else if i == 5 {
        DeckCard::Seven
    } else if i == 6 {
        DeckCard::Eight
    } else if i == 7 {
        DeckCard::Nine
    } else if i == 8 {
        DeckCard::Ten
    } else if i == 9 {
        DeckCard::Jack
    } else if i == 10 {
        DeckCard::Queen
    } else if i == 11 {
        DeckCard::King
    } else {
        DeckCard::Ace
    }
}

/// The two index mappings invert each other on the thirteen ranks.
pub proof fn lemma_rank_index_roundtrip(r: DeckCard)
    ensures
        0 <= rank_index(r) < 13,
        rank_from_index(rank_index(r)) == r,
{
}

/// Each in-range position names a distinct rank.
pub proof fn lemma_rank_from_index_roundtrip(i: int)
    requires
        0 <= i < 13,
    ensures
        rank_index(rank_from_index(i)) == i,
{
}

impl DeckCard {
    /// The textual symbol of a rank: one of `2`..`9`, `T`, `J`, `Q`, `K`, `A`.
    pub open spec fn spec_from_string(sv: Seq<char>) -> Result<DeckCard, Seq<char>> {
        if sv.len() == 1 {
            DeckCard::spec_from_char(sv[0])
        } else {
            Err(" -- no such deck card"@)
        }
    }

    /// The rank denoted by a single symbol character, if any.
    pub open spec fn spec_from_char(c: char) -> Result<DeckCard, Seq<char>> {
        match c {
            '2' => Ok(DeckCard::Two),
            '3' => Ok(DeckCard::Three),
            '4' => Ok(DeckCard::Four),
            '5' => Ok(DeckCard::Five),
            '6' => Ok(DeckCard::Six),
            '7' => Ok(DeckCard::Seven),
            '8' => Ok(DeckCard::Eight),
            '9' => Ok(DeckCard::Nine),
            'T' => Ok(DeckCard::Ten),
            'J' => Ok(DeckCard::Jack),
            'Q' => Ok(DeckCard::Queen),
            'K' => Ok(DeckCard::King),
            'A' => Ok(DeckCard::Ace),
            _ => Err(" -- no such deck card"@),
        }
    }

    /// Parses a one-character rank symbol; any other string is rejected.
    pub fn from_string(symbol: &str) -> (r: Result<DeckCard, String>)
        ensures
            match r {
                Ok(v) => DeckCard::spec_from_string(symbol@) == Ok::<DeckCard, Seq<char>>(v),
                Err(e) => DeckCard::spec_from_string(symbol@) == Err::<DeckCard, Seq<char>>(e@),
            },
    {
        if symbol.unicode_len() == 1 {
            match symbol.get_char(0) {
                '2' => Ok(DeckCard::Two),
                '3' => Ok(DeckCard::Three),
                '4' => Ok(DeckCard::Four),
                '5' => Ok(DeckCard::Five),
                '6' => Ok(DeckCard::Six),
                '7' => Ok(DeckCard::Seven),
                '8' => Ok(DeckCard::Eight),
                '9' => Ok(DeckCard::Nine),
                'T' => Ok(DeckCard::Ten),
                'J' => Ok(DeckCard::Jack),
                'Q' => Ok(DeckCard::Queen),
                'K' => Ok(DeckCard::King),
                'A' => Ok(DeckCard::Ace),
                _ => Err(String::from_str(" -- no such deck card")),
            }
        } else {
            Err(String::from_str(" -- no such deck card"))
        }
    }

    /// The face-value position of this rank, 0 through 12.
    pub fn index(&self) -> (i: usize)
        ensures
            i as int == rank_index(*self),
    {
        match self {
            DeckCard::Two => 0,
            DeckCard::Three => 1,
            DeckCard::Four => 2,
            DeckCard::Five => 3,
            DeckCard::Six => 4,
            DeckCard::Seven => 5,
            DeckCard::Eight => 6,
            DeckCard::Nine => 7,
            DeckCard::Ten => 8,
            DeckCard::Jack => 9,
            DeckCard::Queen => 10,
            DeckCard::King => 11,
            DeckCard::Ace => 12,
        }
    }

    /// The rank at a face-value position.
    pub fn from_index(i: usize) -> (r: DeckCard)
        requires
            i < 13,
        ensures
            r == rank_from_index(i as int),
    {
        if i == 0 {
            DeckCard::Two
        } else if i == 1 {
            DeckCard::Three
        } else if i == 2 {
            DeckCard::Four
        } else if i == 3 {
            DeckCard::Five
        } else if i == 4 {
            DeckCard::Six
        } else if i == 5 {
            DeckCard::Seven
        } else if i == 6 {
            DeckCard::Eight
        } else if i == 7 {
            DeckCard::Nine
        } else if i == 8 {
            DeckCard::Ten
        } else if i == 9 {
            DeckCard::Jack
        } else if i == 10 {
            DeckCard::Queen
        } else if i == 11 {
            DeckCard::King
        } else {
            DeckCard::Ace
        }
    }

    /// The rank's name, as its variant is spelled.
    pub open spec fn spec_name(self) -> Seq<char> {
        match self {
            DeckCard::Two => "Two"@,
            DeckCard::Three => "Three"@,
            DeckCard::Four => "Four"@,
            DeckCard::Five => "Five"@,
            DeckCard::Six => "Six"@,
            DeckCard::Seven => "Seven"@,
            DeckCard::Eight => "Eight"@,
            DeckCard::Nine => "Nine"@,
            DeckCard::Ten => "Ten"@,
            DeckCard::Jack => "Jack"@,
            DeckCard::Queen => "Queen"@,
            DeckCard::King => "King"@,
            DeckCard::Ace => "Ace"@,
        }
    }

    /// Renders the rank's name.
    pub fn name(&self) -> (s: String)
        ensures
            s@ == self.spec_name(),
    {
        match self {
            DeckCard::Two => String::from_str("Two"),
            DeckCard::Three => String::from_str("Three"),
            DeckCard::Four => String::from_str("Four"),
            DeckCard::Five => String::from_str("Five"),
            DeckCard::Six => String::from_str("Six"),
            DeckCard::Seven => String::from_str("Seven"),
            DeckCard::Eight => String::from_str("Eight"),
            DeckCard::Nine => String::from_str("Nine"),
            DeckCard::Ten => String::from_str("Ten"),
            DeckCard::Jack => String::from_str("Jack"),
            DeckCard::Queen => String::from_str("Queen"),
            DeckCard::King => String::from_str("King"),
            DeckCard::Ace => String::from_str("Ace"),
        }
    }
}

} // verus!
