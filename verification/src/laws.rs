//! What holds of the classifier on every hand.

use crate::card::{card_key, Card, GroupKey, Rank, Suit};
use crate::category::HandCategory;
use crate::classify::{
    category_of, flush_family, flush_in, groups_below, groups_of_size, royal_flush_in,
    straight_flush_in, valid_hand, verdict, HandError,
};
use crate::counting::lemma_suit_and_rank_share_seven;
use crate::grouping::{files_under, group_of, rank_count, suit_cards};
use crate::straight::{
    has_straight, is_best_run, lemma_same_values_same_runs, run_at, run_floor, same_values,
    strengths,
};
use vstd::prelude::*;
use vstd::seq_lib::*;
use vstd::set_lib::*;

verus! {

/// A group holds the cards of the hand that are filed under its number,
/// and no others.
pub proof fn lemma_group_holds(cards: Seq<Card>, by: GroupKey, k: u8, c: Card)
    ensures
        group_of(cards, by, k).contains(c) <==> cards.contains(c) && card_key(c, by) == k,
{
    let test = files_under(by, k);
    if group_of(cards, by, k).contains(c) {
        let i = group_of(cards, by, k).lemma_contains_to_index(c);
        cards.lemma_filter_pred(test, i);
        cards.lemma_filter_contains_rev(test, c);
    }
    if cards.contains(c) && card_key(c, by) == k {
        let i = cards.lemma_contains_to_index(c);
        cards.lemma_filter_contains(test, i);
    }
}

/// A strength occurs among the cards exactly when a card has it.
pub proof fn lemma_strength_held(cards: Seq<Card>, v: u8)
    ensures
        strengths(cards).contains(v) <==> exists|c: Card|
            cards.contains(c) && c.rank.strength_of() == v,
{
    if strengths(cards).contains(v) {
        let i = strengths(cards).lemma_contains_to_index(v);
        assert(cards.contains(cards[i]));
    }
    if exists|c: Card| cards.contains(c) && c.rank.strength_of() == v {
        let c = choose|c: Card| cards.contains(c) && c.rank.strength_of() == v;
        let i = cards.lemma_contains_to_index(c);
        assert(strengths(cards)[i] == v);
    }
}

/// Taking a card out of a hand takes it out of the count of the cards that
/// pass a test, if it passed.
proof fn lemma_filter_len_remove(cards: Seq<Card>, test: spec_fn(Card) -> bool, at: int)
    requires
        0 <= at < cards.len(),
    ensures
        cards.filter(test).len() == cards.remove(at).filter(test).len() + (if test(cards[at]) {
            1int
        } else {
            0int
        }),
{
    broadcast use Seq::filter_distributes_over_add;
    broadcast use Seq::lemma_filter_len_push;

    let head = cards.take(at);
    let tail = cards.skip(at + 1);
    let one = Seq::<Card>::empty().push(cards[at]);
    assert(cards =~= (head + one) + tail);
    assert(cards.remove(at) =~= head + tail);
    assert(Seq::<Card>::empty().filter(test).len() == 0) by {
        Seq::<Card>::empty().lemma_filter_len(test);
    }
    assert((head + one).filter(test) == head.filter(test) + one.filter(test));
    assert(((head + one) + tail).filter(test) == (head + one).filter(test) + tail.filter(test));
    assert((head + tail).filter(test) == head.filter(test) + tail.filter(test));
}

/// As many cards pass a test in a hand as in the same cards in another
/// order.
pub proof fn lemma_filter_len_ignores_order(
    a: Seq<Card>,
    b: Seq<Card>,
    test: spec_fn(Card) -> bool,
)
    requires
        a.to_multiset() == b.to_multiset(),
    ensures
        a.filter(test).len() == b.filter(test).len(),
    decreases a.len(),
{
    broadcast use {to_multiset_len, to_multiset_contains};
    broadcast use vstd::multiset::group_multiset_axioms;

    assert(a.len() == b.len()) by {
        assert(a.len() == a.to_multiset().len());
        assert(b.len() == b.to_multiset().len());
    }
    if a.len() == 0 {
        assert(a =~= b);
    } else {
        let last = a.last();
        let rest = a.drop_last();
        assert(a =~= rest.push(last));
        assert(a.contains(last)) by {
            assert(a[a.len() - 1] == last);
        }
        assert(b.contains(last)) by {
            assert(a.to_multiset().count(last) > 0);
            assert(b.to_multiset().count(last) > 0);
        }
        let at = b.lemma_contains_to_index(last);
        to_multiset_build(rest, last);
        to_multiset_remove(b, at);
        assert(rest.to_multiset() =~= b.remove(at).to_multiset());
        lemma_filter_len_ignores_order(rest, b.remove(at), test);
        lemma_filter_len_remove(b, test, at);
        rest.lemma_filter_len_push(test, last);
    }
}

/// The same cards in another order: as many, held twice in the one where
/// they are in the other, and each card in both or in neither.
pub proof fn lemma_same_cards(a: Seq<Card>, b: Seq<Card>)
    requires
        a.to_multiset() == b.to_multiset(),
    ensures
        a.len() == b.len(),
        a.no_duplicates() <==> b.no_duplicates(),
        forall|c: Card| a.contains(c) <==> b.contains(c),
{
    broadcast use {to_multiset_contains, to_multiset_len};

    assert forall|c: Card| a.contains(c) <==> b.contains(c) by {
        assert(a.contains(c) <==> a.to_multiset().count(c) > 0);
        assert(b.contains(c) <==> b.to_multiset().count(c) > 0);
    }
    assert(a.len() == a.to_multiset().len());
    assert(b.len() == b.to_multiset().len());
    if a.no_duplicates() {
        a.lemma_multiset_has_no_duplicates();
        b.lemma_multiset_has_no_duplicates_conv();
    }
    if b.no_duplicates() {
        b.lemma_multiset_has_no_duplicates();
        a.lemma_multiset_has_no_duplicates_conv();
    }
}

/// The same cards in another order hold each rank as often.
proof fn lemma_groups_below_ignore_order(a: Seq<Card>, b: Seq<Card>, n: nat, bound: int)
    requires
        a.to_multiset() == b.to_multiset(),
    ensures
        groups_below(a, n, bound) == groups_below(b, n, bound),
    decreases bound,
{
    if bound > 2 {
        lemma_groups_below_ignore_order(a, b, n, bound - 1);
        lemma_filter_len_ignores_order(a, b, files_under(GroupKey::Rank, (bound - 1) as u8));
    }
}

/// The same cards in another order hold the same strengths, in the whole
/// hand and in each suit.
proof fn lemma_strengths_ignore_order(a: Seq<Card>, b: Seq<Card>, by: GroupKey, k: u8)
    requires
        forall|c: Card| a.contains(c) <==> b.contains(c),
    ensures
        same_values(strengths(a), strengths(b)),
        same_values(strengths(group_of(a, by, k)), strengths(group_of(b, by, k))),
{
    assert forall|v: u8| strengths(a).contains(v) <==> strengths(b).contains(v) by {
        lemma_strength_held(a, v);
        lemma_strength_held(b, v);
    }
    let ga = group_of(a, by, k);
    let gb = group_of(b, by, k);
    assert forall|c: Card| ga.contains(c) <==> gb.contains(c) by {
        lemma_group_holds(a, by, k, c);
        lemma_group_holds(b, by, k, c);
    }
    assert forall|v: u8| strengths(ga).contains(v) <==> strengths(gb).contains(v) by {
        lemma_strength_held(ga, v);
        lemma_strength_held(gb, v);
    }
}

/// The classifier does not look at the order of the cards: the same cards
/// in any order get the same answer, be it a category or a refusal.
pub proof fn lemma_verdict_ignores_order(a: Seq<Card>, b: Seq<Card>)
    requires
        a.to_multiset() == b.to_multiset(),
    ensures
        verdict(a) == verdict(b),
        category_of(a) == category_of(b),
{
    lemma_same_cards(a, b);
    assert forall|s: Suit|
        flush_in(a, s) == flush_in(b, s) && straight_flush_in(a, s) == straight_flush_in(b, s)
            && royal_flush_in(a, s) == royal_flush_in(b, s) by {
        lemma_filter_len_ignores_order(a, b, files_under(GroupKey::Suit, s.index_of()));
        lemma_strengths_ignore_order(a, b, GroupKey::Suit, s.index_of());
        lemma_same_values_same_runs(
            strengths(suit_cards(a, s)),
            strengths(suit_cards(b, s)),
        );
    }
    assert(flush_family(a) == flush_family(b)) by {
        if exists|s: Suit| royal_flush_in(a, s) {
            let s = choose|s: Suit| royal_flush_in(a, s);
            assert(royal_flush_in(b, s));
        }
        if exists|s: Suit| royal_flush_in(b, s) {
            let s = choose|s: Suit| royal_flush_in(b, s);
            assert(royal_flush_in(a, s));
        }
        if exists|s: Suit| straight_flush_in(a, s) {
            let s = choose|s: Suit| straight_flush_in(a, s);
            assert(straight_flush_in(b, s));
        }
        if exists|s: Suit| straight_flush_in(b, s) {
            let s = choose|s: Suit| straight_flush_in(b, s);
            assert(straight_flush_in(a, s));
        }
        if exists|s: Suit| flush_in(a, s) {
            let s = choose|s: Suit| flush_in(a, s);
            assert(flush_in(b, s));
        }
        if exists|s: Suit| flush_in(b, s) {
            let s = choose|s: Suit| flush_in(b, s);
            assert(flush_in(a, s));
        }
    }
    lemma_groups_below_ignore_order(a, b, 4, 15);
    lemma_groups_below_ignore_order(a, b, 3, 15);
    lemma_groups_below_ignore_order(a, b, 2, 15);
    lemma_strengths_ignore_order(a, b, GroupKey::Rank, 0);
    lemma_same_values_same_runs(strengths(a), strengths(b));
}

/// A count of ranks held `n` times that is not zero names such a rank.
pub proof fn lemma_group_of_size_exists(cards: Seq<Card>, n: nat, bound: int) -> (r: Rank)
    requires
        groups_below(cards, n, bound) >= 1,
        bound <= 15,
    ensures
        rank_count(cards, r) == n,
        r.strength_of() < bound,
    decreases bound,
{
    if group_of(cards, GroupKey::Rank, (bound - 1) as u8).len() == n {
        let r = Rank::of_strength(bound - 1)->Some_0;
        assert(r.strength_of() == bound - 1);
        r
    } else {
        lemma_group_of_size_exists(cards, n, bound - 1)
    }
}

/// A rank held `n` times is counted among the ranks held `n` times.
pub proof fn lemma_group_is_counted(cards: Seq<Card>, n: nat, r: Rank, bound: int)
    requires
        rank_count(cards, r) == n,
        r.strength_of() < bound,
    ensures
        groups_below(cards, n, bound) >= 1,
    decreases bound,
{
    if r.strength_of() < bound - 1 {
        lemma_group_is_counted(cards, n, r, bound - 1);
    }
}

/// Four of a kind always wins: a hand that holds a rank four times holds
/// no flush of any kind beside it, and its category is four of a kind.
pub proof fn lemma_four_of_a_kind_wins(cards: Seq<Card>)
    requires
        valid_hand(cards),
        groups_of_size(cards, 4) >= 1,
    ensures
        forall|s: Suit| !flush_in(cards, s),
        flush_family(cards) is None,
        category_of(cards) == HandCategory::FourOfAKind,
        verdict(cards) == Ok::<HandCategory, HandError>(HandCategory::FourOfAKind),
{
    let r = lemma_group_of_size_exists(cards, 4, 15);
    assert forall|s: Suit| !flush_in(cards, s) by {
        lemma_suit_and_rank_share_seven(cards, s.index_of(), r.strength_of());
    }
}

/// How many different ranks the cards have.
pub open spec fn distinct_ranks(cards: Seq<Card>) -> nat {
    strengths(cards).to_set().len()
}

/// A straight takes five different strengths.
pub proof fn lemma_straight_takes_five(vals: Seq<u8>)
    requires
        has_straight(vals),
    ensures
        vals.to_set().len() >= 5,
{
    broadcast use vstd::set::group_set_axioms;

    let top = choose|top: u8| run_at(vals, top);
    let e0 = Set::<u8>::empty();
    let e1 = e0.insert(top);
    let e2 = e1.insert((top - 1) as u8);
    let e3 = e2.insert((top - 2) as u8);
    let e4 = e3.insert((top - 3) as u8);
    let e5 = e4.insert(run_floor(top));
    assert(e5.len() == 5);
    assert(e5.subset_of(vals.to_set()));
    seq_to_set_is_finite(vals);
    lemma_len_subset(e5, vals.to_set());
}

/// Fewer than five different ranks make no straight of any kind: such
/// cards are never classified as a straight, a straight flush or a royal
/// flush.
pub proof fn lemma_few_ranks_no_straight(cards: Seq<Card>)
    requires
        distinct_ranks(cards) < 5,
    ensures
        !has_straight(strengths(cards)),
        forall|s: Suit| !straight_flush_in(cards, s),
        category_of(cards) != HandCategory::Straight,
        category_of(cards) != HandCategory::StraightFlush,
        category_of(cards) != HandCategory::RoyalFlush,
        verdict(cards) != Ok::<HandCategory, HandError>(HandCategory::Straight),
        verdict(cards) != Ok::<HandCategory, HandError>(
            HandCategory::StraightFlush,
        ),
        verdict(cards) != Ok::<HandCategory, HandError>(HandCategory::RoyalFlush),
{
    if has_straight(strengths(cards)) {
        lemma_straight_takes_five(strengths(cards));
    }
    assert forall|s: Suit| !straight_flush_in(cards, s) by {
        let suited = strengths(suit_cards(cards, s));
        if has_straight(suited) {
            lemma_straight_takes_five(suited);
            assert forall|v: u8| suited.to_set().contains(v) implies strengths(
                cards,
            ).to_set().contains(v) by {
                lemma_strength_held(suit_cards(cards, s), v);
                let c = choose|c: Card|
                    suit_cards(cards, s).contains(c) && c.rank.strength_of() == v;
                lemma_group_holds(cards, GroupKey::Suit, s.index_of(), c);
                lemma_strength_held(cards, v);
            }
            seq_to_set_is_finite(strengths(cards));
            lemma_len_subset(suited.to_set(), strengths(cards).to_set());
        }
    }
}

/// The search for the best straight has one answer.
pub proof fn lemma_best_run_is_unique(vals: Seq<u8>, first: Option<u8>, second: Option<u8>)
    requires
        is_best_run(vals, first),
        is_best_run(vals, second),
    ensures
        first == second,
{
    if first is Some && second is Some {
        let a = first->Some_0;
        let b = second->Some_0;
        if a < b {
            assert(!run_at(vals, b));
        }
        if b < a {
            assert(!run_at(vals, a));
        }
    }
}

/// Among seven cards, the royal flushes are these: ace, king and queen of
/// one suit, and with them either jack and ten or five, four, three and
/// deuce of that suit. The rule asks for a run somewhere in the suit and
/// for the suit's three strongest cards, not for the run to hold them; with
/// seven cards no other run has room beside the three.
pub proof fn lemma_royal_flush_shapes(cards: Seq<Card>, s: Suit)
    requires
        cards.len() == 7,
    ensures
        royal_flush_in(cards, s) <==> {
            let held = strengths(suit_cards(cards, s));
            &&& flush_in(cards, s)
            &&& held.contains(14) && held.contains(13) && held.contains(12)
            &&& (held.contains(11) && held.contains(10)) || (held.contains(5) && held.contains(4)
                && held.contains(3) && held.contains(2))
        },
{
    broadcast use vstd::set::group_set_axioms;

    let suited = suit_cards(cards, s);
    let held = strengths(suited);
    if held.contains(14) && held.contains(13) && held.contains(12) {
        if held.contains(11) && held.contains(10) {
            assert(run_at(held, 14));
        }
        if held.contains(5) && held.contains(4) && held.contains(3) && held.contains(2) {
            assert(run_at(held, 5));
        }
        if has_straight(held) {
            let top = choose|top: u8| run_at(held, top);
            if 6 <= top <= 11 {
                let e0 = Set::<u8>::empty();
                let e1 = e0.insert(14);
                let e2 = e1.insert(13);
                let e3 = e2.insert(12);
                let e4 = e3.insert(top);
                let e5 = e4.insert((top - 1) as u8);
                let e6 = e5.insert((top - 2) as u8);
                let e7 = e6.insert((top - 3) as u8);
                let e8 = e7.insert((top - 4) as u8);
                assert(e8.len() == 8);
                assert(e8.subset_of(held.to_set()));
                seq_to_set_is_finite(held);
                lemma_len_subset(e8, held.to_set());
                held.lemma_cardinality_of_set();
                cards.lemma_filter_len(files_under(GroupKey::Suit, s.index_of()));
            }
        }
    }
}

} // verus!
