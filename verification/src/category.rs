//! The ten hand categories and the order of their strength.

use vstd::prelude::*;

verus! {

/// What a hand holds, strongest category first.
#[derive(Clone, Copy, Debug, PartialEq, Eq, Hash, Structural)]
pub enum HandCategory {
    RoyalFlush,
    StraightFlush,
    FourOfAKind,
    FullHouse,
    Flush,
    Straight,
    ThreeOfAKind,
    TwoPair,
    OnePair,
    HighCard,
}

/// How the first of two categories stands against the second.
#[derive(Clone, Copy, Debug, PartialEq, Eq, Hash, Structural)]
pub enum Strength {
    LessStrong,
    Equal,
    MoreStrong,
}

impl HandCategory {
    /// A category's place in the order of strength: 1 for the royal flush,
    /// the strongest, down to 10 for the high card. A lower number is a
    /// stronger hand.
    pub open spec fn strength_number(self) -> int {
        match self {
            HandCategory::RoyalFlush => 1,
            HandCategory::StraightFlush => 2,
            HandCategory::FourOfAKind => 3,
            HandCategory::FullHouse => 4,
            HandCategory::Flush => 5,
            HandCategory::Straight => 6,
            HandCategory::ThreeOfAKind => 7,
            HandCategory::TwoPair => 8,
            HandCategory::OnePair => 9,
            HandCategory::HighCard => 10,
        }
    }

    /// The category's name in words.
    pub open spec fn name_of(self) -> Seq<char> {
        match self {
            HandCategory::RoyalFlush => "Royal flush"@,
            HandCategory::StraightFlush => "Straight flush"@,
            HandCategory::FourOfAKind => "Four of a kind"@,
            HandCategory::FullHouse => "Full house"@,
            HandCategory::Flush => "Flush"@,
            HandCategory::Straight => "Straight"@,
            HandCategory::ThreeOfAKind => "Three of a kind"@,
            HandCategory::TwoPair => "Two pair"@,
            HandCategory::OnePair => "One pair"@,
            HandCategory::HighCard => "HighCard"@,
        }
    }

    /// Gives the category's name in words.
    pub fn name(&self) -> (text: &'static str)
        ensures
            text@ == self.name_of(),
    {
        match self {
            HandCategory::RoyalFlush => "Royal flush",
            HandCategory::StraightFlush => "Straight flush",
            HandCategory::FourOfAKind => "Four of a kind",
            HandCategory::FullHouse => "Full house",
            HandCategory::Flush => "Flush",
            HandCategory::Straight => "Straight",
            HandCategory::ThreeOfAKind => "Three of a kind",
            HandCategory::TwoPair => "Two pair",
            HandCategory::OnePair => "One pair",
            HandCategory::HighCard => "HighCard",
        }
    }
}

/// How category `a` stands against category `b`. Hands of one category are
/// equal: the cards beside the category are not looked at.
pub open spec fn standing(a: HandCategory, b: HandCategory) -> Strength {
    if a.strength_number() < b.strength_number() {
        Strength::MoreStrong
    } else if a.strength_number() > b.strength_number() {
        Strength::LessStrong
    } else {
        Strength::Equal
    }
}

/// Computes a category's place in the order of strength, 1 to 10.
pub fn judge_hand_strength(hand: &HandCategory) -> (n: i32)
    ensures
        n == hand.strength_number(),
        1 <= n <= 10,
{
    match hand {
        HandCategory::RoyalFlush => 1,
        HandCategory::StraightFlush => 2,
        HandCategory::FourOfAKind => 3,
        HandCategory::FullHouse => 4,
        HandCategory::Flush => 5,
        HandCategory::Straight => 6,
        HandCategory::ThreeOfAKind => 7,
        HandCategory::TwoPair => 8,
        HandCategory::OnePair => 9,
        HandCategory::HighCard => 10,
    }
}

/// Tells which of two categories is the stronger.
pub fn compare(a: HandCategory, b: HandCategory) -> (s: Strength)
    ensures
        s == standing(a, b),
        s == Strength::Equal <==> a == b,
{
    let left: i32 = judge_hand_strength(&a);
    let right: i32 = judge_hand_strength(&b);
    if left < right {
        Strength::MoreStrong
    } else if left > right {
        Strength::LessStrong
    } else {
        Strength::Equal
    }
}

/// The order of strength is total: two categories stand equal only when
/// they are the same, turning a pair round turns the answer round, and
/// being stronger carries over a category in between.
pub proof fn lemma_standing_is_total_order(a: HandCategory, b: HandCategory, c: HandCategory)
    ensures
        standing(a, b) == Strength::Equal <==> a == b,
        standing(a, b) == Strength::MoreStrong <==> standing(b, a) == Strength::LessStrong,
        standing(a, b) == Strength::MoreStrong && standing(b, c) == Strength::MoreStrong
            ==> standing(a, c) == Strength::MoreStrong,
        standing(a, b) == Strength::MoreStrong <==> a.strength_number() < b.strength_number(),
{
}

} // verus!
