//! Playing cards: thirteen ordered ranks, four unordered suits.

use vstd::prelude::*;

verus! {

/// The rank of a card, two low and ace high.
#[derive(Clone, Copy, Debug, PartialEq, Eq, Structural, PartialOrd, Ord, Hash)]
pub enum CardValue {
    Value2,
    Value3,
    Value4,
    Value5,
    Value6,
    Value7,
    Value8,
    Value9,
    ValueT,
    ValueJ,
    ValueQ,
    ValueK,
    ValueA,
}

/// The suit of a card. Suits are never ranked against each other.
#[derive(Clone, Copy, Debug, PartialEq, Eq, Structural, PartialOrd, Ord, Hash)]
pub enum CardSuit {
    Clubs,
    Diamonds,
    Hearts,
    Spades,
}

/// Why a pair of characters does not denote a card.
#[derive(Clone, Copy, Debug, PartialEq, Eq, Structural)]
pub enum CardError {
    /// The first character is not one of `23456789TJQKA`.
    UnknownValue,
    /// The first character is a rank, the second is not one of `CDHS`.
    UnknownSuit,
}

/// A card is its rank and its suit, nothing else.
#[derive(Clone, Copy, Debug, PartialEq, Eq, Structural, PartialOrd, Ord, Hash)]
pub struct Card {
    pub value: CardValue,
    pub suit: CardSuit,
}

impl CardValue {
    /// The numeric rank, from 2 for a two up to 14 for an ace.
    pub open spec fn rank(self) -> int {
        match self {
            CardValue::Value2 => 2,
            CardValue::Value3 => 3,
            CardValue::Value4 => 4,
            CardValue::Value5 => 5,
            CardValue::Value6 => 6,
            CardValue::Value7 => 7,
            CardValue::Value8 => 8,
            CardValue::Value9 => 9,
            CardValue::ValueT => 10,
            CardValue::ValueJ => 11,
            CardValue::ValueQ => 12,
            CardValue::ValueK => 13,
            CardValue::ValueA => 14,
        }
    }

    /// The character that denotes this rank.
    pub open spec fn symbol(self) -> char {
        match self {
            CardValue::Value2 => '2',
            CardValue::Value3 => '3',
            CardValue::Value4 => '4',
            CardValue::Value5 => '5',
            CardValue::Value6 => '6',
            CardValue::Value7 => '7',
            CardValue::Value8 => '8',
            CardValue::Value9 => '9',
            CardValue::ValueT => 'T',
            CardValue::ValueJ => 'J',
            CardValue::ValueQ => 'Q',
            CardValue::ValueK => 'K',
            CardValue::ValueA => 'A',
        }
    }

    /// The numeric rank as a machine integer.
    pub fn number(self) -> (r: u8)
        ensures
            r as int == self.rank(),
            2 <= r <= 14,
    {
        match self {
            CardValue::Value2 => 2,
            CardValue::Value3 => 3,
            CardValue::Value4 => 4,
            CardValue::Value5 => 5,
            CardValue::Value6 => 6,
            CardValue::Value7 => 7,
            CardValue::Value8 => 8,
            CardValue::Value9 => 9,
            CardValue::ValueT => 10,
            CardValue::ValueJ => 11,
            CardValue::ValueQ => 12,
            CardValue::ValueK => 13,
            CardValue::ValueA => 14,
        }
    }

    /// The character that denotes this rank.
    pub fn to_char(self) -> (c: char)
        ensures
            c == self.symbol(),
    {
        match self {
            CardValue::Value2 => '2',
            CardValue::Value3 => '3',
            CardValue::Value4 => '4',
            CardValue::Value5 => '5',
            CardValue::Value6 => '6',
            CardValue::Value7 => '7',
            CardValue::Value8 => '8',
            CardValue::Value9 => '9',
            CardValue::ValueT => 'T',
            CardValue::ValueJ => 'J',
            CardValue::ValueQ => 'Q',
            CardValue::ValueK => 'K',
            CardValue::ValueA => 'A',
        }
    }

    /// Reads a rank character; `None` exactly when no rank has that symbol.
    pub fn from_char(c: char) -> (r: Option<CardValue>)
        ensures
            match r {
                Some(v) => v.symbol() == c,
                None => !is_value_char(c),
            },
    {
        match c {
            '2' => Some(CardValue::Value2),
            '3' => Some(CardValue::Value3),
            '4' => Some(CardValue::Value4),
            '5' => Some(CardValue::Value5),
            '6' => Some(CardValue::Value6),
            '7' => Some(CardValue::Value7),
            '8' => Some(CardValue::Value8),
            '9' => Some(CardValue::Value9),
            'T' => Some(CardValue::ValueT),
            'J' => Some(CardValue::ValueJ),
            'Q' => Some(CardValue::ValueQ),
            'K' => Some(CardValue::ValueK),
            'A' => Some(CardValue::ValueA),
            _ => None,
        }
    }
}

impl CardSuit {
    /// The character that denotes this suit.
    pub open spec fn symbol(self) -> char {
        match self {
            CardSuit::Clubs => 'C',
            CardSuit::Diamonds => 'D',
            CardSuit::Hearts => 'H',
            CardSuit::Spades => 'S',
        }
    }

    /// Reads a suit character; `None` exactly when no suit has that symbol.
    pub fn from_char(c: char) -> (r: Option<CardSuit>)
        ensures
            match r {
                Some(s) => s.symbol() == c,
                None => !is_suit_char(c),
            },
    {
        match c {
            'C' => Some(CardSuit::Clubs),
            'D' => Some(CardSuit::Diamonds),
            'H' => Some(CardSuit::Hearts),
            'S' => Some(CardSuit::Spades),
            _ => None,
        }
    }
}

/// Whether some rank is written with this character.
pub open spec fn is_value_char(c: char) -> bool {
    c == '2' || c == '3' || c == '4' || c == '5' || c == '6' || c == '7' || c == '8' || c == '9'
        || c == 'T' || c == 'J' || c == 'Q' || c == 'K' || c == 'A'
}

/// Whether some suit is written with this character.
pub open spec fn is_suit_char(c: char) -> bool {
    c == 'C' || c == 'D' || c == 'H' || c == 'S'
}

/// The characters of ranks and suits are exactly the symbols of the
/// thirteen ranks and the four suits, and no two ranks or suits share one.
pub proof fn law_symbols(c: char)
    ensures
        is_value_char(c) <==> exists|v: CardValue| #[trigger] v.symbol() == c,
        is_suit_char(c) <==> exists|s: CardSuit| #[trigger] s.symbol() == c,
        forall|v: CardValue, w: CardValue| v.symbol() == w.symbol() ==> v == w,
        forall|s: CardSuit, t: CardSuit| s.symbol() == t.symbol() ==> s == t,
        forall|v: CardValue, w: CardValue| v.rank() == w.rank() ==> v == w,
{
    if is_value_char(c) {
        let v = if c == '2' {
            CardValue::Value2
        } else if c == '3' {
            CardValue::Value3
        } else if c == '4' {
            CardValue::Value4
        } else if c == '5' {
            CardValue::Value5
        } else if c == '6' {
            CardValue::Value6
        } else if c == '7' {
            CardValue::Value7
        } else if c == '8' {
            CardValue::Value8
        } else if c == '9' {
            CardValue::Value9
        } else if c == 'T' {
            CardValue::ValueT
        } else if c == 'J' {
            CardValue::ValueJ
        } else if c == 'Q' {
            CardValue::ValueQ
        } else if c == 'K' {
            CardValue::ValueK
        } else {
            CardValue::ValueA
        };
        assert(v.symbol() == c);
    }
    if is_suit_char(c) {
        let s = if c == 'C' {
            CardSuit::Clubs
        } else if c == 'D' {
            CardSuit::Diamonds
        } else if c == 'H' {
            CardSuit::Hearts
        } else {
            CardSuit::Spades
        };
        assert(s.symbol() == c);
    }
}

impl Card {
    /// Builds the card written as a rank character followed by a suit
    /// character. An unknown rank is reported before an unknown suit.
    pub fn new(value_char: char, suit_char: char) -> (r: Result<Card, CardError>)
        ensures
            match r {
                Ok(card) => card.value.symbol() == value_char && card.suit.symbol() == suit_char,
                Err(CardError::UnknownValue) => !is_value_char(value_char),
                Err(CardError::UnknownSuit) => is_value_char(value_char) && !is_suit_char(
                    suit_char,
                ),
            },
            r is Ok <==> is_value_char(value_char) && is_suit_char(suit_char),
    {
        match CardValue::from_char(value_char) {
            None => Err(CardError::UnknownValue),
            Some(value) => match CardSuit::from_char(suit_char) {
                None => Err(CardError::UnknownSuit),
                Some(suit) => Ok(Card { value, suit }),
            },
        }
    }
}

} // verus!
