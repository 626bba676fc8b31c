//! The classifier: from seven cards to the category of the hand.

use crate::card::{Card, GroupKey, Suit};
use crate::category::HandCategory;
use crate::counting::lemma_groups_share_seven;
use crate::grouping::{
    group_by_rank, group_by_suit, group_len, group_of, is_partition, suit_cards,
};
use crate::straight::{
    all_strengths, descending_ranks, has_straight, judge_straight, lemma_run_needs_five,
    lemma_same_values_same_runs, run_at, straight_in, strengths, strictly_descending,
};
use std::collections::HashMap;
use vstd::prelude::*;

verus! {

broadcast use vstd::std_specs::hash::group_hash_axioms;

/// Why a collection of cards is no hand.
#[derive(Clone, Copy, Debug, PartialEq, Eq, Hash, Structural)]
pub enum HandError {
    /// The collection does not hold seven cards.
    InvalidHandSize,
    /// The collection holds some card twice.
    DuplicateCard,
}

/// The number of cards in a hand.
pub const HAND_SIZE: usize = 7;

/// The number of cards of one suit that make a flush.
pub const FLUSH_SIZE: usize = 5;

/// A hand is seven cards, no two of them the same.
pub open spec fn valid_hand(cards: Seq<Card>) -> bool {
    cards.len() == HAND_SIZE && cards.no_duplicates()
}

/// Whether the cards of suit `s` make a flush: five of them or more.
pub open spec fn flush_in(cards: Seq<Card>, s: Suit) -> bool {
    suit_cards(cards, s).len() >= FLUSH_SIZE
}

/// Whether the cards of suit `s` make a flush and hold a straight.
pub open spec fn straight_flush_in(cards: Seq<Card>, s: Suit) -> bool {
    flush_in(cards, s) && has_straight(strengths(suit_cards(cards, s)))
}

/// Whether the cards of suit `s` make a straight flush whose three
/// strongest cards are ace, king and queen.
pub open spec fn royal_flush_in(cards: Seq<Card>, s: Suit) -> bool {
    &&& straight_flush_in(cards, s)
    &&& strengths(suit_cards(cards, s)).contains(14)
    &&& strengths(suit_cards(cards, s)).contains(13)
    &&& strengths(suit_cards(cards, s)).contains(12)
}

/// The category that the flushes of a hand give it, if it holds a flush.
pub open spec fn flush_family(cards: Seq<Card>) -> Option<HandCategory> {
    if exists|s: Suit| royal_flush_in(cards, s) {
        Some(HandCategory::RoyalFlush)
    } else if exists|s: Suit| straight_flush_in(cards, s) {
        Some(HandCategory::StraightFlush)
    } else if exists|s: Suit| flush_in(cards, s) {
        Some(HandCategory::Flush)
    } else {
        None
    }
}

/// How many ranks of strength below `bound` the cards hold exactly `n`
/// times.
pub open spec fn groups_below(cards: Seq<Card>, n: nat, bound: int) -> nat
    decreases bound,
{
    if bound <= 2 {
        0
    } else {
        let lower = groups_below(cards, n, bound - 1);
        if group_of(cards, GroupKey::Rank, (bound - 1) as u8).len() == n {
            lower + 1
        } else {
            lower
        }
    }
}

/// How many ranks the cards hold exactly `n` times.
pub open spec fn groups_of_size(cards: Seq<Card>, n: nat) -> nat {
    groups_below(cards, n, 15)
}

/// The category of a hand. The tests stand in the order in which they are
/// made, and the first that holds decides.
pub open spec fn category_of(cards: Seq<Card>) -> HandCategory {
    if let Some(flush) = flush_family(cards) {
        flush
    } else if groups_of_size(cards, 4) >= 1 {
        HandCategory::FourOfAKind
    } else if has_straight(strengths(cards)) {
        HandCategory::Straight
    } else if groups_of_size(cards, 3) >= 1 {
        if groups_of_size(cards, 2) >= 1 || groups_of_size(cards, 3) >= 2 {
            HandCategory::FullHouse
        } else {
            HandCategory::ThreeOfAKind
        }
    } else if groups_of_size(cards, 2) >= 2 {
        HandCategory::TwoPair
    } else if groups_of_size(cards, 2) == 1 {
        HandCategory::OnePair
    } else {
        HandCategory::HighCard
    }
}

/// What the classifier answers: the category of a hand, and for what is no
/// hand the reason, the number of cards being looked at first.
pub open spec fn verdict(cards: Seq<Card>) -> Result<HandCategory, HandError> {
    if cards.len() != HAND_SIZE {
        Err(HandError::InvalidHandSize)
    } else if !cards.no_duplicates() {
        Err(HandError::DuplicateCard)
    } else {
        Ok(category_of(cards))
    }
}

/// Tells whether some card stands twice among the cards.
pub fn has_duplicate(cards: &Vec<Card>) -> (found: bool)
    ensures
        found == !cards@.no_duplicates(),
{
    let mut i: usize = 0;
    while i < cards.len()
        invariant
            i <= cards.len(),
            forall|a: int, b: int| 0 <= a < b < i ==> cards@[a] != cards@[b],
        decreases cards.len() - i,
    {
        let mut j: usize = 0;
        while j < i
            invariant
                j <= i < cards.len(),
                forall|a: int| 0 <= a < j ==> cards@[a] != cards@[i as int],
            decreases i - j,
        {
            if cards[j] == cards[i] {
                return true;
            }
            j += 1;
        }
        i += 1;
    }
    proof {
        assert forall|a: int, b: int|
            0 <= a < cards@.len() && 0 <= b < cards@.len() && a != b implies cards@[a]
            != cards@[b] by {
            if a < b {
                assert(cards@[a] != cards@[b]);
            } else {
                assert(cards@[b] != cards@[a]);
            }
        }
    }
    false
}

/// In strengths that stand each once and the strongest first, ace, king
/// and queen are held exactly when they are the first three.
proof fn lemma_top_three(keys: Seq<u8>)
    requires
        strictly_descending(keys),
        all_strengths(keys),
        keys.len() >= 3,
    ensures
        (keys[0] == 14 && keys[1] == 13 && keys[2] == 12) <==> (keys.contains(14) && keys.contains(
            13,
        ) && keys.contains(12)),
{
    if keys.contains(14) && keys.contains(13) && keys.contains(12) {
        let a = keys.lemma_contains_to_index(14);
        let k = keys.lemma_contains_to_index(13);
        let q = keys.lemma_contains_to_index(12);
        if a > 0 {
            assert(keys[0] > keys[a]);
        }
        assert(keys[0] > keys[1]);
        if k > 1 {
            assert(keys[1] > keys[k]);
        }
        assert(keys[1] > keys[2]);
        if q > 2 {
            assert(keys[2] > keys[q]);
        }
        assert(k != 0 && q != 0 && q != 1);
    }
    if keys[0] == 14 && keys[1] == 13 && keys[2] == 12 {
        assert(keys.contains(keys[0]));
        assert(keys.contains(keys[1]));
        assert(keys.contains(keys[2]));
    }
}

/// Looks for a flush among seven cards and tells what kind it is: a royal
/// flush, a straight flush or a plain flush.
pub fn judge_flush(cards: &Vec<Card>) -> (found: Option<HandCategory>)
    requires
        cards@.len() == HAND_SIZE,
    ensures
        found == flush_family(cards@),
{
    let groups: HashMap<u8, Vec<Card>> = group_by_suit(cards);
    let mut k: u8 = 0;
    while k < 4
        invariant
            k <= 4,
            cards@.len() == HAND_SIZE,
            is_partition(groups@, cards@, GroupKey::Suit),
            forall|s: Suit| s.index_of() < k ==> !flush_in(cards@, s),
        decreases 4 - k,
    {
        let ghost suit: Suit = Suit::of_index(k as int)->Some_0;
        assert(suit.index_of() == k);
        match groups.get(&k) {
            Some(group) => {
                assert(group@ == suit_cards(cards@, suit));
                if group.len() >= FLUSH_SIZE {
                    let keys: Vec<u8> = descending_ranks(group);
                    let top: Option<u8> = straight_in(&keys);
                    proof {
                        lemma_same_values_same_runs(keys@, strengths(group@));
                        assert(top is Some <==> has_straight(strengths(group@))) by {
                            if top is Some {
                                assert(run_at(strengths(group@), top->Some_0));
                            }
                        }
                        assert(flush_in(cards@, suit));
                        assert forall|other: Suit| flush_in(cards@, other) implies other
                            == suit by {
                            if other != suit {
                                lemma_groups_share_seven(
                                    cards@,
                                    GroupKey::Suit,
                                    suit.index_of(),
                                    other.index_of(),
                                );
                            }
                        }
                        if top is Some {
                            lemma_run_needs_five(keys@, top->Some_0);
                            lemma_top_three(keys@);
                        }
                    }
                    if top.is_some() {
                        if keys[0] == 14 && keys[1] == 13 && keys[2] == 12 {
                            assert(royal_flush_in(cards@, suit));
                            return Some(HandCategory::RoyalFlush);
                        } else {
                            assert(straight_flush_in(cards@, suit));
                            return Some(HandCategory::StraightFlush);
                        }
                    } else {
                        return Some(HandCategory::Flush);
                    }
                }
            },
            None => {
                assert(suit_cards(cards@, suit).len() == 0);
            },
        }
        assert forall|s: Suit| s.index_of() < k + 1 implies !flush_in(cards@, s) by {
            if s.index_of() == k {
                assert(s == suit);
            }
        }
        k += 1;
    }
    None
}

/// How many ranks the cards hold four times, three times and twice.
#[derive(Clone, Copy, Debug)]
pub struct RankTally {
    pub fours: u8,
    pub threes: u8,
    pub twos: u8,
}

/// Counts the ranks that the cards hold four times, three times and twice.
pub fn tally_ranks(cards: &Vec<Card>) -> (tally: RankTally)
    ensures
        tally.fours == groups_of_size(cards@, 4),
        tally.threes == groups_of_size(cards@, 3),
        tally.twos == groups_of_size(cards@, 2),
{
    let groups: HashMap<u8, Vec<Card>> = group_by_rank(cards);
    let mut fours: u8 = 0;
    let mut threes: u8 = 0;
    let mut twos: u8 = 0;
    let mut v: u8 = 2;
    while v <= 14
        invariant
            2 <= v <= 15,
            is_partition(groups@, cards@, GroupKey::Rank),
            fours == groups_below(cards@, 4, v as int),
            threes == groups_below(cards@, 3, v as int),
            twos == groups_below(cards@, 2, v as int),
            fours <= v,
            threes <= v,
            twos <= v,
        decreases 15 - v,
    {
        let held: usize = group_len(&groups, v);
        assert(held == group_of(cards@, GroupKey::Rank, v).len());
        if held == 4 {
            fours += 1;
        } else if held == 3 {
            threes += 1;
        } else if held == 2 {
            twos += 1;
        }
        v += 1;
    }
    RankTally { fours, threes, twos }
}

/// Classifies a hand of seven different cards: returns the best category
/// that the cards hold. What is no such hand is refused: any other number
/// of cards as `InvalidHandSize`, seven cards with one of them twice as
/// `DuplicateCard`. The order of the cards does not matter.
pub fn judge_hand(cards: &Vec<Card>) -> (hand: Result<HandCategory, HandError>)
    ensures
        hand == verdict(cards@),
        hand is Ok <==> valid_hand(cards@),
{
    if cards.len() != HAND_SIZE {
        return Err(HandError::InvalidHandSize);
    }
    if has_duplicate(cards) {
        return Err(HandError::DuplicateCard);
    }
    if let Some(flush) = judge_flush(cards) {
        return Ok(flush);
    }
    let tally: RankTally = tally_ranks(cards);
    if tally.fours >= 1 {
        return Ok(HandCategory::FourOfAKind);
    }
    if judge_straight(cards) {
        return Ok(HandCategory::Straight);
    }
    if tally.threes >= 1 {
        if tally.twos >= 1 || tally.threes >= 2 {
            return Ok(HandCategory::FullHouse);
        } else {
            return Ok(HandCategory::ThreeOfAKind);
        }
    }
    if tally.twos >= 2 {
        Ok(HandCategory::TwoPair)
    } else if tally.twos == 1 {
        Ok(HandCategory::OnePair)
    } else {
        Ok(HandCategory::HighCard)
    }
}

} // verus!
