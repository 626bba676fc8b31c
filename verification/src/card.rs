//! Playing cards: thirteen ranks, four suits, and the pair of both.

use vstd::prelude::*;

verus! {

/// The thirteen ranks, weakest first. The ace is the strongest rank.
#[derive(Clone, Copy, Debug, PartialEq, Eq, Hash, Structural)]
pub enum Rank {
    Two,
    Three,
    Four,
    Five,
    Six,
    Seven,
    Eight,
    Nine,
    Ten,
    Jack,
    Queen,
    King,
    Ace,
}

/// The four suits. Suits are never ordered, only told apart.
#[derive(Clone, Copy, Debug, PartialEq, Eq, Hash, Structural)]
pub enum Suit {
    Spade,
    Heart,
    Diamond,
    Club,
}

/// One playing card.
#[derive(Clone, Copy, Debug, PartialEq, Eq, Hash, Structural)]
pub struct Card {
    pub rank: Rank,
    pub suit: Suit,
}

/// The feature by which cards are put into groups.
#[derive(Clone, Copy, Debug, PartialEq, Eq, Structural)]
pub enum GroupKey {
    Suit,
    Rank,
}

/// Strength of the deuce, the weakest rank.
pub const LOWEST_STRENGTH: u8 = 2;

/// Strength of the ace, the strongest rank.
pub const ACE_STRENGTH: u8 = 14;

impl Rank {
    /// The numeric strength of a rank: 2 for the deuce up to 14 for the ace.
    pub open spec fn strength_of(self) -> u8 {
        match self {
            Rank::Two => 2,
            Rank::Three => 3,
            Rank::Four => 4,
            Rank::Five => 5,
            Rank::Six => 6,
            Rank::Seven => 7,
            Rank::Eight => 8,
            Rank::Nine => 9,
            Rank::Ten => 10,
            Rank::Jack => 11,
            Rank::Queen => 12,
            Rank::King => 13,
            Rank::Ace => 14,
        }
    }

    /// The rank that has strength `v`, if `v` is a strength at all.
    pub open spec fn of_strength(v: int) -> Option<Rank> {
        if v == 2 {
            Some(Rank::Two)
        } else if v == 3 {
            Some(Rank::Three)
        } else if v == 4 {
            Some(Rank::Four)
        } else if v == 5 {
            Some(Rank::Five)
        } else if v == 6 {
            Some(Rank::Six)
        } else if v == 7 {
            Some(Rank::Seven)
        } else if v == 8 {
            Some(Rank::Eight)
        } else if v == 9 {
            Some(Rank::Nine)
        } else if v == 10 {
            Some(Rank::Ten)
        } else if v == 11 {
            Some(Rank::Jack)
        } else if v == 12 {
            Some(Rank::Queen)
        } else if v == 13 {
            Some(Rank::King)
        } else if v == 14 {
            Some(Rank::Ace)
        } else {
            None
        }
    }

    /// Computes the numeric strength of a rank.
    #[verifier::when_used_as_spec(strength_of)]
    pub fn strength(self) -> (v: u8)
        ensures
            v == self.strength_of(),
            LOWEST_STRENGTH <= v <= ACE_STRENGTH,
    {
        match self {
            Rank::Two => 2,
            Rank::Three => 3,
            Rank::Four => 4,
            Rank::Five => 5,
            Rank::Six => 6,
            Rank::Seven => 7,
            Rank::Eight => 8,
            Rank::Nine => 9,
            Rank::Ten => 10,
            Rank::Jack => 11,
            Rank::Queen => 12,
            Rank::King => 13,
            Rank::Ace => 14,
        }
    }

    /// Finds the rank of a given strength. Only 2 to 14 are strengths.
    pub fn from_strength(v: u8) -> (r: Option<Rank>)
        ensures
            r == Rank::of_strength(v as int),
            r is Some <==> LOWEST_STRENGTH <= v <= ACE_STRENGTH,
            r matches Some(rank) ==> rank.strength_of() == v,
    {
        match v {
            2 => Some(Rank::Two),
            3 => Some(Rank::Three),
            4 => Some(Rank::Four),
            5 => Some(Rank::Five),
            6 => Some(Rank::Six),
            7 => Some(Rank::Seven),
            8 => Some(Rank::Eight),
            9 => Some(Rank::Nine),
            10 => Some(Rank::Ten),
            11 => Some(Rank::Jack),
            12 => Some(Rank::Queen),
            13 => Some(Rank::King),
            14 => Some(Rank::Ace),
            _ => None,
        }
    }
}

impl Suit {
    /// A suit's number, 0 to 3. It names the suit and orders nothing.
    pub open spec fn index_of(self) -> u8 {
        match self {
            Suit::Spade => 0,
            Suit::Heart => 1,
            Suit::Diamond => 2,
            Suit::Club => 3,
        }
    }

    /// The suit that has number `k`, if `k` is below 4.
    pub open spec fn of_index(k: int) -> Option<Suit> {
        if k == 0 {
            Some(Suit::Spade)
        } else if k == 1 {
            Some(Suit::Heart)
        } else if k == 2 {
            Some(Suit::Diamond)
        } else if k == 3 {
            Some(Suit::Club)
        } else {
            None
        }
    }

    /// Computes a suit's number.
    #[verifier::when_used_as_spec(index_of)]
    pub fn index(self) -> (k: u8)
        ensures
            k == self.index_of(),
            k < 4,
    {
        match self {
            Suit::Spade => 0,
            Suit::Heart => 1,
            Suit::Diamond => 2,
            Suit::Club => 3,
        }
    }

    /// Finds the suit of a given number.
    pub fn from_index(k: u8) -> (s: Option<Suit>)
        ensures
            s == Suit::of_index(k as int),
            s is Some <==> k < 4,
            s matches Some(suit) ==> suit.index_of() == k,
    {
        match k {
            0 => Some(Suit::Spade),
            1 => Some(Suit::Heart),
            2 => Some(Suit::Diamond),
            3 => Some(Suit::Club),
            _ => None,
        }
    }
}

/// The number under which a card is filed when cards are grouped by `by`:
/// its suit's number, or its rank's strength.
pub open spec fn card_key(c: Card, by: GroupKey) -> u8 {
    match by {
        GroupKey::Suit => c.suit.index_of(),
        GroupKey::Rank => c.rank.strength_of(),
    }
}

impl Card {
    /// Builds a card from its rank and suit.
    pub fn new(rank: Rank, suit: Suit) -> (c: Card)
        ensures
            c == (Card { rank, suit }),
    {
        Card { rank, suit }
    }

    /// Computes the number under which this card is filed for `by`.
    pub fn key(&self, by: GroupKey) -> (k: u8)
        ensures
            k == card_key(*self, by),
    {
        match by {
            GroupKey::Suit => self.suit.index(),
            GroupKey::Rank => self.rank.strength(),
        }
    }
}

/// A rank is known by its strength, and a suit by its number.
pub proof fn lemma_keys_identify(a: Card, b: Card)
    ensures
        a.rank.strength_of() == b.rank.strength_of() <==> a.rank == b.rank,
        a.suit.index_of() == b.suit.index_of() <==> a.suit == b.suit,
        Rank::of_strength(a.rank.strength_of() as int) == Some(a.rank),
        Suit::of_index(a.suit.index_of() as int) == Some(a.suit),
        2 <= a.rank.strength_of() <= 14,
        a.suit.index_of() < 4,
{
}

} // verus!
