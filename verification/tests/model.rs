use poker_hand::card::{Card, GroupKey, Rank, Suit, ACE_STRENGTH, LOWEST_STRENGTH};
use poker_hand::category::{compare, judge_hand_strength, HandCategory, Strength};
use poker_hand::deck::{standard_deck, DECK_SIZE};
use poker_hand::grouping::{group_by_rank, group_by_suit, group_len};

const ALL_RANKS: [Rank; 13] = [
    Rank::Two,
    Rank::Three,
    Rank::Four,
    Rank::Five,
    Rank::Six,
    Rank::Seven,
    Rank::Eight,
    Rank::Nine,
    Rank::Ten,
    Rank::Jack,
    Rank::Queen,
    Rank::King,
    Rank::Ace,
];

const ALL_SUITS: [Suit; 4] = [Suit::Spade, Suit::Heart, Suit::Diamond, Suit::Club];

const ALL_CATEGORIES: [HandCategory; 10] = [
    HandCategory::RoyalFlush,
    HandCategory::StraightFlush,
    HandCategory::FourOfAKind,
    HandCategory::FullHouse,
    HandCategory::Flush,
    HandCategory::Straight,
    HandCategory::ThreeOfAKind,
    HandCategory::TwoPair,
    HandCategory::OnePair,
    HandCategory::HighCard,
];

#[test]
fn strengths_run_from_two_to_fourteen() {
    for (at, &rank) in ALL_RANKS.iter().enumerate() {
        assert_eq!(rank.strength() as usize, at + 2);
        assert_eq!(Rank::from_strength(rank.strength()), Some(rank));
    }
    assert_eq!(Rank::Two.strength(), LOWEST_STRENGTH);
    assert_eq!(Rank::Jack.strength(), 11);
    assert_eq!(Rank::Queen.strength(), 12);
    assert_eq!(Rank::King.strength(), 13);
    assert_eq!(Rank::Ace.strength(), ACE_STRENGTH);
}

#[test]
fn only_two_to_fourteen_are_strengths() {
    assert_eq!(Rank::from_strength(0), None);
    assert_eq!(Rank::from_strength(1), None);
    assert_eq!(Rank::from_strength(15), None);
    assert_eq!(Rank::from_strength(255), None);
}

#[test]
fn suits_are_numbered_from_nought_to_three() {
    for (at, &suit) in ALL_SUITS.iter().enumerate() {
        assert_eq!(suit.index() as usize, at);
        assert_eq!(Suit::from_index(suit.index()), Some(suit));
    }
    assert_eq!(Suit::from_index(4), None);
    assert_eq!(Suit::from_index(255), None);
}

#[test]
fn a_card_is_filed_under_suit_or_rank() {
    let card = Card::new(Rank::Queen, Suit::Diamond);
    assert_eq!(card.rank, Rank::Queen);
    assert_eq!(card.suit, Suit::Diamond);
    assert_eq!(card.key(GroupKey::Suit), 2);
    assert_eq!(card.key(GroupKey::Rank), 12);
    assert_eq!(card, Card { rank: Rank::Queen, suit: Suit::Diamond });
    assert_ne!(card, Card::new(Rank::Queen, Suit::Club));
}

#[test]
fn categories_are_numbered_strongest_first() {
    for (at, category) in ALL_CATEGORIES.iter().enumerate() {
        assert_eq!(judge_hand_strength(category) as usize, at + 1);
    }
    assert_eq!(judge_hand_strength(&HandCategory::RoyalFlush), 1);
    assert_eq!(judge_hand_strength(&HandCategory::HighCard), 10);
}

#[test]
fn compare_follows_the_order_of_strength() {
    for (i, &a) in ALL_CATEGORIES.iter().enumerate() {
        for (j, &b) in ALL_CATEGORIES.iter().enumerate() {
            let expected = if i < j {
                Strength::MoreStrong
            } else if i > j {
                Strength::LessStrong
            } else {
                Strength::Equal
            };
            assert_eq!(compare(a, b), expected);
        }
    }
}

#[test]
fn compare_on_chosen_categories() {
    assert_eq!(compare(HandCategory::FourOfAKind, HandCategory::Flush), Strength::MoreStrong);
    assert_eq!(compare(HandCategory::Flush, HandCategory::FourOfAKind), Strength::LessStrong);
    assert_eq!(compare(HandCategory::Flush, HandCategory::Straight), Strength::MoreStrong);
    assert_eq!(compare(HandCategory::OnePair, HandCategory::OnePair), Strength::Equal);
    assert_eq!(compare(HandCategory::HighCard, HandCategory::RoyalFlush), Strength::LessStrong);
}

#[test]
fn categories_have_their_names() {
    assert_eq!(HandCategory::RoyalFlush.name(), "Royal flush");
    assert_eq!(HandCategory::StraightFlush.name(), "Straight flush");
    assert_eq!(HandCategory::FourOfAKind.name(), "Four of a kind");
    assert_eq!(HandCategory::FullHouse.name(), "Full house");
    assert_eq!(HandCategory::Flush.name(), "Flush");
    assert_eq!(HandCategory::Straight.name(), "Straight");
    assert_eq!(HandCategory::ThreeOfAKind.name(), "Three of a kind");
    assert_eq!(HandCategory::TwoPair.name(), "Two pair");
    assert_eq!(HandCategory::OnePair.name(), "One pair");
    assert_eq!(HandCategory::HighCard.name(), "HighCard");
}

#[test]
fn cards_are_grouped_by_suit_in_their_order() {
    let cards = vec![
        Card::new(Rank::Nine, Suit::Heart),
        Card::new(Rank::Two, Suit::Spade),
        Card::new(Rank::Ace, Suit::Heart),
        Card::new(Rank::Two, Suit::Club),
        Card::new(Rank::Five, Suit::Heart),
    ];
    let groups = group_by_suit(&cards);
    assert_eq!(groups.len(), 3);
    assert_eq!(
        groups.get(&Suit::Heart.index()),
        Some(&vec![
            Card::new(Rank::Nine, Suit::Heart),
            Card::new(Rank::Ace, Suit::Heart),
            Card::new(Rank::Five, Suit::Heart),
        ])
    );
    assert_eq!(groups.get(&Suit::Spade.index()), Some(&vec![Card::new(Rank::Two, Suit::Spade)]));
    assert_eq!(groups.get(&Suit::Club.index()), Some(&vec![Card::new(Rank::Two, Suit::Club)]));
    assert_eq!(groups.get(&Suit::Diamond.index()), None);
    assert_eq!(group_len(&groups, Suit::Heart.index()), 3);
    assert_eq!(group_len(&groups, Suit::Diamond.index()), 0);
}

#[test]
fn cards_are_grouped_by_rank_in_their_order() {
    let cards = vec![
        Card::new(Rank::Nine, Suit::Heart),
        Card::new(Rank::Two, Suit::Spade),
        Card::new(Rank::Nine, Suit::Club),
        Card::new(Rank::Two, Suit::Club),
        Card::new(Rank::Nine, Suit::Spade),
    ];
    let groups = group_by_rank(&cards);
    assert_eq!(groups.len(), 2);
    assert_eq!(
        groups.get(&9),
        Some(&vec![
            Card::new(Rank::Nine, Suit::Heart),
            Card::new(Rank::Nine, Suit::Club),
            Card::new(Rank::Nine, Suit::Spade),
        ])
    );
    assert_eq!(
        groups.get(&2),
        Some(&vec![Card::new(Rank::Two, Suit::Spade), Card::new(Rank::Two, Suit::Club)])
    );
    assert_eq!(group_len(&groups, 9), 3);
    assert_eq!(group_len(&groups, 2), 2);
    assert_eq!(group_len(&groups, 14), 0);
}

#[test]
fn no_cards_make_no_groups() {
    assert!(group_by_suit(&Vec::new()).is_empty());
    assert!(group_by_rank(&Vec::new()).is_empty());
}

#[test]
fn the_deck_holds_each_card_once() {
    let deck = standard_deck();
    assert_eq!(deck.len(), DECK_SIZE);
    assert_eq!(deck.len(), 52);
    for &rank in ALL_RANKS.iter() {
        for &suit in ALL_SUITS.iter() {
            let held = deck.iter().filter(|&&card| card == Card::new(rank, suit)).count();
            assert_eq!(held, 1);
        }
    }
}

#[test]
fn the_deck_runs_from_the_aces_to_the_deuces() {
    let deck = standard_deck();
    assert_eq!(deck[0], Card::new(Rank::Ace, Suit::Spade));
    assert_eq!(deck[1], Card::new(Rank::Ace, Suit::Heart));
    assert_eq!(deck[2], Card::new(Rank::Ace, Suit::Diamond));
    assert_eq!(deck[3], Card::new(Rank::Ace, Suit::Club));
    assert_eq!(deck[4], Card::new(Rank::King, Suit::Spade));
    assert_eq!(deck[51], Card::new(Rank::Two, Suit::Club));
}
