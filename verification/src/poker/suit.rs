//! The four card suits.

use vstd::prelude::*;

verus! {

/// A card suit.  Suits carry no ordering; the classifier only tests them for
/// equality and reports the suit of a flush.
#[derive(Debug, Clone, Copy, PartialEq, Eq, Hash, Structural)]
pub enum Suit {
    Hearts,
    Diamonds,
    Clubs,
    Spades,
}

impl Suit {
    /// The suit denoted by a notation character, if any.
    pub open spec fn spec_from_char(c: char) -> Result<Suit, Seq<char>> {
        match c {
            'h' => Ok(Suit::Hearts),
            'd' => Ok(Suit::Diamonds),
            'c' => Ok(Suit::Clubs),
            's' => Ok(Suit::Spades),
            _ => Err(" -- no such deck card"@),
        }
    }

    /// Parses a suit notation character: `h`, `d`, `c` or `s`.
    pub fn from_string(symbol: char) -> (r: Result<Suit, String>)
        ensures
            match r {
                Ok(v) => Suit::spec_from_char(symbol) == Ok::<Suit, Seq<char>>(v),
                Err(e) => Suit::spec_from_char(symbol) == Err::<Suit, Seq<char>>(e@),
            },
    {
        match symbol {
            'h' => Ok(Suit::Hearts),
            'd' => Ok(Suit::Diamonds),
            'c' => Ok(Suit::Clubs),
            's' => Ok(Suit::Spades),
            _ => Err(String::from_str(" -- no such deck card")),
        }
    }

    /// The suit's name, as its variant is spelled.
    pub open spec fn spec_name(self) -> Seq<char> {
        match self {
            Suit::Hearts => "Hearts"@,
            Suit::Diamonds => "Diamonds"@,
            Suit::Clubs => "Clubs"@,
            Suit::Spades => "Spades"@,
        }
    }

    /// Renders the suit's name.
    pub fn name(&self) -> (s: String)
        ensures
            s@ == self.spec_name(),
    {
        match self {
            Suit::Hearts => String::from_str("Hearts"),
            Suit::Diamonds => String::from_str("Diamonds"),
            Suit::Clubs => String::from_str("Clubs"),
            Suit::Spades => String::from_str("Spades"),
        }
    }
}

} // verus!
