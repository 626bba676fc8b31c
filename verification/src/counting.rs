//! Counting the cards of a seven-card hand that fall into a group.

use crate::card::{card_key, lemma_keys_identify, Card, GroupKey};
use crate::grouping::{files_under, group_of};
use vstd::prelude::*;

verus! {

/// One if the card at place `i` is filed under `k`, nothing if it is not.
#[verifier::opaque]
pub open spec fn hit(cards: Seq<Card>, i: int, by: GroupKey, k: u8) -> int {
    if card_key(cards[i], by) == k {
        1
    } else {
        0
    }
}

/// A group of a seven-card hand is counted card by card.
pub proof fn lemma_count_seven(cards: Seq<Card>, by: GroupKey, k: u8)
    requires
        cards.len() == 7,
    ensures
        group_of(cards, by, k).len() == hit(cards, 0, by, k) + hit(cards, 1, by, k) + hit(
            cards,
            2,
            by,
            k,
        ) + hit(cards, 3, by, k) + hit(cards, 4, by, k) + hit(cards, 5, by, k) + hit(
            cards,
            6,
            by,
            k,
        ),
{
    broadcast use Seq::lemma_filter_len_push;

    reveal(hit);
    let test = files_under(by, k);
    let s0 = Seq::<Card>::empty();
    let s1 = s0.push(cards[0]);
    let s2 = s1.push(cards[1]);
    let s3 = s2.push(cards[2]);
    let s4 = s3.push(cards[3]);
    let s5 = s4.push(cards[4]);
    let s6 = s5.push(cards[5]);
    let s7 = s6.push(cards[6]);
    assert(s7 =~= cards);
    assert(s0.filter(test).len() == 0) by {
        s0.lemma_filter_len(test);
    }
    assert(s1.filter(test).len() == s0.filter(test).len() + hit(cards, 0, by, k));
    assert(s2.filter(test).len() == s1.filter(test).len() + hit(cards, 1, by, k));
    assert(s3.filter(test).len() == s2.filter(test).len() + hit(cards, 2, by, k));
    assert(s4.filter(test).len() == s3.filter(test).len() + hit(cards, 3, by, k));
    assert(s5.filter(test).len() == s4.filter(test).len() + hit(cards, 4, by, k));
    assert(s6.filter(test).len() == s5.filter(test).len() + hit(cards, 5, by, k));
    assert(s7.filter(test).len() == s6.filter(test).len() + hit(cards, 6, by, k));
}

/// A card is filed under one number only.
proof fn lemma_one_group(cards: Seq<Card>, i: int, by: GroupKey, k1: u8, k2: u8)
    requires
        k1 != k2,
    ensures
        hit(cards, i, by, k1) + hit(cards, i, by, k2) <= 1,
{
    reveal(hit);
}

/// Two groups of one partition share no card, so seven cards cannot fill
/// two groups with more than seven cards between them.
pub proof fn lemma_groups_share_seven(cards: Seq<Card>, by: GroupKey, k1: u8, k2: u8)
    requires
        cards.len() == 7,
        k1 != k2,
    ensures
        group_of(cards, by, k1).len() + group_of(cards, by, k2).len() <= 7,
{
    lemma_count_seven(cards, by, k1);
    lemma_count_seven(cards, by, k2);
    lemma_one_group(cards, 0, by, k1, k2);
    lemma_one_group(cards, 1, by, k1, k2);
    lemma_one_group(cards, 2, by, k1, k2);
    lemma_one_group(cards, 3, by, k1, k2);
    lemma_one_group(cards, 4, by, k1, k2);
    lemma_one_group(cards, 5, by, k1, k2);
    lemma_one_group(cards, 6, by, k1, k2);
}

/// One if the card at place `i` has both the suit and the rank, nothing if
/// it lacks either.
#[verifier::opaque]
pub open spec fn hit_both(cards: Seq<Card>, i: int, suit_key: u8, rank_key: u8) -> int {
    if card_key(cards[i], GroupKey::Suit) == suit_key && card_key(cards[i], GroupKey::Rank)
        == rank_key {
        1
    } else {
        0
    }
}

/// A card counts for its suit and for its rank, and for both only where it
/// has both.
proof fn lemma_suit_and_rank(cards: Seq<Card>, i: int, suit_key: u8, rank_key: u8)
    ensures
        hit(cards, i, GroupKey::Suit, suit_key) + hit(cards, i, GroupKey::Rank, rank_key) <= 1
            + hit_both(cards, i, suit_key, rank_key),
        0 <= hit_both(cards, i, suit_key, rank_key) <= 1,
{
    reveal(hit);
    reveal(hit_both);
}

/// Two different cards do not agree in both suit and rank.
proof fn lemma_not_both(cards: Seq<Card>, i: int, j: int, suit_key: u8, rank_key: u8)
    requires
        cards.no_duplicates(),
        0 <= i < j < cards.len(),
    ensures
        hit_both(cards, i, suit_key, rank_key) + hit_both(cards, j, suit_key, rank_key) <= 1,
{
    reveal(hit_both);
    lemma_keys_identify(cards[i], cards[j]);
    assert(cards[i] != cards[j]);
}

/// Among seven different cards at most one has a given suit and rank.
proof fn lemma_one_card_has_both(cards: Seq<Card>, suit_key: u8, rank_key: u8)
    requires
        cards.len() == 7,
        cards.no_duplicates(),
    ensures
        hit_both(cards, 0, suit_key, rank_key) + hit_both(cards, 1, suit_key, rank_key) + hit_both(
            cards,
            2,
            suit_key,
            rank_key,
        ) + hit_both(cards, 3, suit_key, rank_key) + hit_both(cards, 4, suit_key, rank_key)
            + hit_both(cards, 5, suit_key, rank_key) + hit_both(cards, 6, suit_key, rank_key) <= 1,
{
    lemma_suit_and_rank(cards, 0, suit_key, rank_key);
    lemma_suit_and_rank(cards, 1, suit_key, rank_key);
    lemma_suit_and_rank(cards, 2, suit_key, rank_key);
    lemma_suit_and_rank(cards, 3, suit_key, rank_key);
    lemma_suit_and_rank(cards, 4, suit_key, rank_key);
    lemma_suit_and_rank(cards, 5, suit_key, rank_key);
    lemma_suit_and_rank(cards, 6, suit_key, rank_key);
    lemma_not_both(cards, 0, 1, suit_key, rank_key);
    lemma_not_both(cards, 0, 2, suit_key, rank_key);
    lemma_not_both(cards, 0, 3, suit_key, rank_key);
    lemma_not_both(cards, 0, 4, suit_key, rank_key);
    lemma_not_both(cards, 0, 5, suit_key, rank_key);
    lemma_not_both(cards, 0, 6, suit_key, rank_key);
    lemma_not_both(cards, 1, 2, suit_key, rank_key);
    lemma_not_both(cards, 1, 3, suit_key, rank_key);
    lemma_not_both(cards, 1, 4, suit_key, rank_key);
    lemma_not_both(cards, 1, 5, suit_key, rank_key);
    lemma_not_both(cards, 1, 6, suit_key, rank_key);
    lemma_not_both(cards, 2, 3, suit_key, rank_key);
    lemma_not_both(cards, 2, 4, suit_key, rank_key);
    lemma_not_both(cards, 2, 5, suit_key, rank_key);
    lemma_not_both(cards, 2, 6, suit_key, rank_key);
    lemma_not_both(cards, 3, 4, suit_key, rank_key);
    lemma_not_both(cards, 3, 5, suit_key, rank_key);
    lemma_not_both(cards, 3, 6, suit_key, rank_key);
    lemma_not_both(cards, 4, 5, suit_key, rank_key);
    lemma_not_both(cards, 4, 6, suit_key, rank_key);
    lemma_not_both(cards, 5, 6, suit_key, rank_key);
}

/// Two cards of one suit and one rank are one card, so among seven
/// different cards a suit and a rank have at most one card in common: the
/// two groups hold at most eight cards between them.
pub proof fn lemma_suit_and_rank_share_seven(cards: Seq<Card>, suit_key: u8, rank_key: u8)
    requires
        cards.len() == 7,
        cards.no_duplicates(),
    ensures
        group_of(cards, GroupKey::Suit, suit_key).len() + group_of(
            cards,
            GroupKey::Rank,
            rank_key,
        ).len() <= 8,
{
    lemma_count_seven(cards, GroupKey::Suit, suit_key);
    lemma_count_seven(cards, GroupKey::Rank, rank_key);
    lemma_one_card_has_both(cards, suit_key, rank_key);
    lemma_suit_and_rank(cards, 0, suit_key, rank_key);
    lemma_suit_and_rank(cards, 1, suit_key, rank_key);
    lemma_suit_and_rank(cards, 2, suit_key, rank_key);
    lemma_suit_and_rank(cards, 3, suit_key, rank_key);
    lemma_suit_and_rank(cards, 4, suit_key, rank_key);
    lemma_suit_and_rank(cards, 5, suit_key, rank_key);
    lemma_suit_and_rank(cards, 6, suit_key, rank_key);
}

} // verus!
