use poker_hand::card::{Card, Rank, Suit};
use poker_hand::straight::{
    card_strengths, descending_ranks, judge_straight, sort_descending, straight_top,
};

fn cards_of(ranks: &[Rank]) -> Vec<Card> {
    let suits = [Suit::Spade, Suit::Heart, Suit::Diamond, Suit::Club];
    ranks
        .iter()
        .enumerate()
        .map(|(at, &rank)| Card::new(rank, suits[at % 4]))
        .collect()
}

#[test]
fn five_in_a_row_are_a_straight() {
    let cards = cards_of(&[Rank::Ten, Rank::Nine, Rank::Eight, Rank::Seven, Rank::Six]);
    assert!(judge_straight(&cards));
    assert_eq!(straight_top(&cards), Some(10));
}

#[test]
fn the_order_of_the_ranks_does_not_matter_to_a_straight() {
    let cards = cards_of(&[Rank::Seven, Rank::Ten, Rank::Six, Rank::Nine, Rank::Eight]);
    assert!(judge_straight(&cards));
    assert_eq!(straight_top(&cards), Some(10));
}

#[test]
fn a_gap_breaks_the_straight() {
    let cards = cards_of(&[
        Rank::Ten,
        Rank::Nine,
        Rank::Eight,
        Rank::Seven,
        Rank::Five,
        Rank::Four,
        Rank::Three,
    ]);
    assert!(!judge_straight(&cards));
    assert_eq!(straight_top(&cards), None);
}

#[test]
fn ends_four_apart_with_a_gap_between_are_no_straight() {
    // 10 and 6 are four apart, but the 8 is missing.
    let cards = cards_of(&[Rank::Ten, Rank::Nine, Rank::Nine, Rank::Seven, Rank::Six]);
    assert!(!judge_straight(&cards));
}

#[test]
fn the_wheel_is_a_straight_that_ends_at_the_five() {
    let cards = cards_of(&[Rank::Ace, Rank::Two, Rank::Three, Rank::Four, Rank::Five]);
    assert!(judge_straight(&cards));
    assert_eq!(straight_top(&cards), Some(5));
}

#[test]
fn the_wheel_is_found_beside_other_ranks() {
    let cards = cards_of(&[
        Rank::Ace,
        Rank::King,
        Rank::Nine,
        Rank::Five,
        Rank::Four,
        Rank::Three,
        Rank::Two,
    ]);
    assert!(judge_straight(&cards));
    assert_eq!(straight_top(&cards), Some(5));
}

#[test]
fn a_straight_above_the_wheel_wins() {
    // A-2-3-4-5 and 2-3-4-5-6 are both held: the six-high one is the better.
    let cards = cards_of(&[
        Rank::Ace,
        Rank::Two,
        Rank::Three,
        Rank::Four,
        Rank::Five,
        Rank::Six,
        Rank::King,
    ]);
    assert!(judge_straight(&cards));
    assert_eq!(straight_top(&cards), Some(6));
}

#[test]
fn the_highest_of_several_straights_is_found() {
    let cards = cards_of(&[
        Rank::Four,
        Rank::Five,
        Rank::Six,
        Rank::Seven,
        Rank::Eight,
        Rank::Nine,
        Rank::Ten,
    ]);
    assert_eq!(straight_top(&cards), Some(10));
}

#[test]
fn the_ace_high_straight_ends_at_the_ace() {
    let cards = cards_of(&[
        Rank::Ace,
        Rank::King,
        Rank::Queen,
        Rank::Jack,
        Rank::Ten,
        Rank::Two,
        Rank::Three,
    ]);
    assert_eq!(straight_top(&cards), Some(14));
}

#[test]
fn ranks_held_twice_do_not_hide_a_straight() {
    // Sorted: K 6 5 5 4 3 2. No five places in a row hold a run until the
    // second five is dropped.
    let cards = cards_of(&[
        Rank::King,
        Rank::Six,
        Rank::Five,
        Rank::Five,
        Rank::Four,
        Rank::Three,
        Rank::Two,
    ]);
    assert!(judge_straight(&cards));
    assert_eq!(straight_top(&cards), Some(6));
}

#[test]
fn fewer_than_five_ranks_are_no_straight() {
    let cards = cards_of(&[
        Rank::Two,
        Rank::Two,
        Rank::Three,
        Rank::Three,
        Rank::Four,
        Rank::Four,
        Rank::Five,
    ]);
    assert!(!judge_straight(&cards));
    let four = cards_of(&[Rank::Ace, Rank::Two, Rank::Three, Rank::Four]);
    assert!(!judge_straight(&four));
    assert!(!judge_straight(&Vec::new()));
    assert_eq!(straight_top(&Vec::new()), None);
}

#[test]
fn the_ace_does_not_stand_in_the_middle() {
    let cards = cards_of(&[Rank::King, Rank::Ace, Rank::Two, Rank::Three, Rank::Four]);
    assert!(!judge_straight(&cards));
}

#[test]
fn strengths_are_read_card_by_card() {
    let cards = cards_of(&[Rank::Two, Rank::Ace, Rank::Ten, Rank::Ace, Rank::Jack]);
    assert_eq!(card_strengths(&cards), vec![2, 14, 10, 14, 11]);
    assert_eq!(card_strengths(&Vec::new()), Vec::<u8>::new());
}

#[test]
fn ranks_are_listed_once_and_strongest_first() {
    let cards = cards_of(&[
        Rank::Five,
        Rank::King,
        Rank::Five,
        Rank::Two,
        Rank::King,
        Rank::Ace,
        Rank::Five,
    ]);
    assert_eq!(descending_ranks(&cards), vec![14, 13, 5, 2]);
    assert_eq!(descending_ranks(&Vec::new()), Vec::<u8>::new());
}

#[test]
fn sorting_puts_the_largest_first_and_keeps_repeats() {
    assert_eq!(sort_descending(&vec![3, 14, 3, 9, 2, 14]), vec![14, 14, 9, 3, 3, 2]);
    assert_eq!(sort_descending(&vec![7]), vec![7]);
    assert_eq!(sort_descending(&Vec::new()), Vec::<u8>::new());
    assert_eq!(sort_descending(&vec![0, 255, 1]), vec![255, 1, 0]);
}
