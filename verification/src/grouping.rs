//! Partitions of a hand: its cards by suit and by rank.

use crate::card::{card_key, Card, GroupKey, Rank, Suit};
use itertools::Itertools;
use std::collections::HashMap;
use vstd::prelude::*;

verus! {

broadcast use vstd::std_specs::hash::group_hash_axioms;

/// The test for membership in the group filed under `k`.
pub open spec fn files_under(by: GroupKey, k: u8) -> spec_fn(Card) -> bool {
    |c: Card| card_key(c, by) == k
}

/// The cards filed under `k`, in the order in which the hand holds them.
pub open spec fn group_of(cards: Seq<Card>, by: GroupKey, k: u8) -> Seq<Card> {
    cards.filter(files_under(by, k))
}

/// The hand's cards of one suit.
pub open spec fn suit_cards(cards: Seq<Card>, s: Suit) -> Seq<Card> {
    group_of(cards, GroupKey::Suit, s.index_of())
}

/// How many of the hand's cards have rank `r`.
pub open spec fn rank_count(cards: Seq<Card>, r: Rank) -> nat {
    group_of(cards, GroupKey::Rank, r.strength_of()).len()
}

/// Whether `groups` is the partition of `cards` by `by`: a group for each
/// number that some card is filed under and for no other, each group
/// holding its cards in the order of the hand.
pub open spec fn is_partition(
    groups: Map<u8, Vec<Card>>,
    cards: Seq<Card>,
    by: GroupKey,
) -> bool {
    &&& forall|k: u8| #[trigger]
        groups.contains_key(k) <==> group_of(cards, by, k).len() > 0
    &&& forall|k: u8| #[trigger]
        groups.contains_key(k) ==> groups[k]@ == group_of(cards, by, k)
}

/// Calls `Itertools::into_group_map_by` on the cards, with the card's
/// number for `by` as the key. Trusted: the map that comes back has one
/// entry for each key that occurs, and the entry's vector holds the cards
/// of that key in the order in which they were handed in.
#[verifier::external_body]
fn group_by_key(cards: &Vec<Card>, by: GroupKey) -> (groups: HashMap<u8, Vec<Card>>)
    ensures
        is_partition(groups@, cards@, by),
{
    cards.iter().copied().into_group_map_by(|c| c.key(by))
}

/// Partitions the cards by suit. The groups are filed under the suits'
/// numbers.
pub fn group_by_suit(cards: &Vec<Card>) -> (groups: HashMap<u8, Vec<Card>>)
    ensures
        is_partition(groups@, cards@, GroupKey::Suit),
        forall|s: Suit|
            groups@.contains_key(s.index_of()) ==> #[trigger] suit_cards(cards@, s)
                == groups@[s.index_of()]@,
        forall|s: Suit|
            !groups@.contains_key(s.index_of()) ==> (#[trigger] suit_cards(cards@, s)).len() == 0,
{
    group_by_key(cards, GroupKey::Suit)
}

/// Partitions the cards by rank. The groups are filed under the ranks'
/// strengths.
pub fn group_by_rank(cards: &Vec<Card>) -> (groups: HashMap<u8, Vec<Card>>)
    ensures
        is_partition(groups@, cards@, GroupKey::Rank),
        forall|r: Rank|
            groups@.contains_key(r.strength_of()) ==> #[trigger] rank_count(cards@, r)
                == groups@[r.strength_of()]@.len(),
        forall|r: Rank|
            !groups@.contains_key(r.strength_of()) ==> #[trigger] rank_count(cards@, r) == 0,
{
    group_by_key(cards, GroupKey::Rank)
}

/// Looks up how many cards a partition holds under `k`; none where it has
/// no such group.
pub fn group_len(groups: &HashMap<u8, Vec<Card>>, k: u8) -> (n: usize)
    ensures
        n == (if groups@.contains_key(k) {
            groups@[k]@.len()
        } else {
            0
        }),
{
    match groups.get(&k) {
        Some(group) => group.len(),
        None => 0,
    }
}

} // verus!
