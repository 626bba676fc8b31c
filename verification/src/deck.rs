//! The standard deck: each rank in each suit, once.

use crate::card::{Card, Rank, Suit};
use vstd::prelude::*;

verus! {

/// The number of cards in the deck.
pub const DECK_SIZE: usize = 52;

/// The card at place `at` of the deck. The deck runs from the aces down to
/// the deuces, and within a rank from spade over heart and diamond to club.
pub open spec fn deck_card(at: int) -> Card {
    Card {
        rank: Rank::of_strength(14 - at / 4)->Some_0,
        suit: Suit::of_index(at % 4)->Some_0,
    }
}

/// The place of a card in the deck.
pub open spec fn deck_place(c: Card) -> int {
    4 * (14 - c.rank.strength_of()) + c.suit.index_of()
}

/// The whole deck in its order.
pub open spec fn deck_cards() -> Seq<Card> {
    Seq::new(DECK_SIZE as nat, |at: int| deck_card(at))
}

/// Each card has its place in the deck, and each place its card.
pub proof fn lemma_deck_places(c: Card, at: int)
    ensures
        0 <= deck_place(c) < 52,
        deck_card(deck_place(c)) == c,
        0 <= at < 52 ==> deck_place(deck_card(at)) == at,
{
}

/// The deck holds every card, and none twice.
pub proof fn lemma_deck_is_complete()
    ensures
        deck_cards().len() == 52,
        deck_cards().no_duplicates(),
        forall|c: Card| deck_cards().contains(c),
{
    let deck = deck_cards();
    assert forall|i: int, j: int| 0 <= i < deck.len() && 0 <= j < deck.len() && i != j implies deck[i]
        != deck[j] by {
        lemma_deck_places(deck[i], i);
        lemma_deck_places(deck[j], j);
    }
    assert forall|c: Card| deck.contains(c) by {
        lemma_deck_places(c, 0);
        assert(deck[deck_place(c)] == c);
    }
}

/// Builds the standard deck of 52 cards.
pub fn standard_deck() -> (deck: Vec<Card>)
    ensures
        deck@ == deck_cards(),
        deck@.len() == DECK_SIZE,
        deck@.no_duplicates(),
        forall|c: Card| deck@.contains(c),
{
    let mut deck: Vec<Card> = Vec::new();
    let mut i: u8 = 0;
    while i < 13
        invariant
            i <= 13,
            deck@.len() == 4 * i,
            forall|at: int| 0 <= at < deck@.len() ==> deck@[at] == deck_card(at),
        decreases 13 - i,
    {
        let rank: Rank = Rank::from_strength(14 - i).unwrap();
        let mut j: u8 = 0;
        while j < 4
            invariant
                i < 13,
                j <= 4,
                rank.strength_of() == 14 - i,
                deck@.len() == 4 * i + j,
                forall|at: int| 0 <= at < deck@.len() ==> deck@[at] == deck_card(at),
            decreases 4 - j,
        {
            let suit: Suit = Suit::from_index(j).unwrap();
            proof {
                lemma_deck_places(Card { rank, suit }, 0);
            }
            deck.push(Card { rank, suit });
            j += 1;
        }
        i += 1;
    }
    proof {
        assert(deck@ =~= deck_cards());
        lemma_deck_is_complete();
    }
    deck
}

} // verus!
