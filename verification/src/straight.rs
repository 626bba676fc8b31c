//! Straights: five ranks in a row, the ace playing high or low.

use crate::card::Card;
use itertools::Itertools;
use vstd::prelude::*;
use vstd::seq_lib::*;

verus! {

/// The strengths of the cards' ranks, card by card.
pub open spec fn strengths(cards: Seq<Card>) -> Seq<u8> {
    Seq::new(cards.len(), |i: int| cards[i].rank.strength_of())
}

/// The lowest strength of the run that ends at `top`. In the wheel, the
/// run that ends at the five, the ace plays low and stands below the deuce.
pub open spec fn run_floor(top: u8) -> u8 {
    if top == 5 {
        14
    } else {
        (top - 4) as u8
    }
}

/// Whether `vals` holds the five strengths in a row that end at `top`.
pub open spec fn run_at(vals: Seq<u8>, top: u8) -> bool {
    &&& 5 <= top <= 14
    &&& vals.contains(top)
    &&& vals.contains((top - 1) as u8)
    &&& vals.contains((top - 2) as u8)
    &&& vals.contains((top - 3) as u8)
    &&& vals.contains(run_floor(top))
}

/// Whether `vals` holds a straight.
pub open spec fn has_straight(vals: Seq<u8>) -> bool {
    exists|top: u8| run_at(vals, top)
}

/// Whether `top` answers the search for the best straight in `vals`: the
/// highest strength at which a run ends, or nothing where there is no run.
pub open spec fn is_best_run(vals: Seq<u8>, top: Option<u8>) -> bool {
    match top {
        Some(t) => run_at(vals, t) && forall|higher: u8| t < higher ==> !run_at(vals, higher),
        None => !has_straight(vals),
    }
}

/// Each value is at most as large as those before it.
pub open spec fn descending(s: Seq<u8>) -> bool {
    forall|i: int, j: int| 0 <= i < j < s.len() ==> s[i] >= s[j]
}

/// Each value is smaller than those before it.
pub open spec fn strictly_descending(s: Seq<u8>) -> bool {
    forall|i: int, j: int| 0 <= i < j < s.len() ==> s[i] > s[j]
}

/// Whether two sequences hold the same values, however often and in
/// whatever order.
pub open spec fn same_values(a: Seq<u8>, b: Seq<u8>) -> bool {
    forall|v: u8| a.contains(v) <==> b.contains(v)
}

/// Every value is the strength of a rank.
pub open spec fn all_strengths(s: Seq<u8>) -> bool {
    forall|i: int| 0 <= i < s.len() ==> 2 <= #[trigger] s[i] <= 14
}

/// The values of `s` in order, each one kept where it first occurs and
/// dropped wherever it occurs again.
pub open spec fn first_occurrences(s: Seq<u8>) -> Seq<u8>
    decreases s.len(),
{
    if s.len() == 0 {
        Seq::empty()
    } else {
        let before = first_occurrences(s.drop_last());
        if before.contains(s.last()) {
            before
        } else {
            before.push(s.last())
        }
    }
}

/// Dropping the repeats leaves every value once and loses none.
pub proof fn lemma_first_occurrences(s: Seq<u8>)
    ensures
        first_occurrences(s).no_duplicates(),
        same_values(first_occurrences(s), s),
        first_occurrences(s).len() <= s.len(),
    decreases s.len(),
{
    if s.len() > 0 {
        let init = s.drop_last();
        let before = first_occurrences(init);
        lemma_first_occurrences(init);
        assert(s =~= init.push(s.last()));
        assert forall|v: u8| first_occurrences(s).contains(v) <==> s.contains(v) by {
            if s.contains(v) {
                let i = s.lemma_contains_to_index(v);
                if i < init.len() {
                    assert(init[i] == v);
                    assert(init.contains(v));
                    assert(before.contains(v));
                    let j = before.lemma_contains_to_index(v);
                    assert(first_occurrences(s)[j] == v);
                } else {
                    assert(v == s.last());
                    if !before.contains(v) {
                        assert(first_occurrences(s)[before.len() as int] == v);
                    }
                }
            }
            if first_occurrences(s).contains(v) {
                let j = first_occurrences(s).lemma_contains_to_index(v);
                if j < before.len() {
                    assert(before[j] == v);
                    assert(before.contains(v));
                    let i = init.lemma_contains_to_index(v);
                    assert(s[i] == v);
                } else {
                    assert(v == s.last());
                    assert(s[s.len() - 1] == v);
                }
            }
        }
    }
}

/// Calls `Itertools::unique` on the values and collects what it yields.
/// Trusted: each value comes out once, at the place of its first
/// occurrence, and the values keep the order in which they went in.
#[verifier::external_body]
fn unique_values(values: &Vec<u8>) -> (kept: Vec<u8>)
    ensures
        kept@ == first_occurrences(values@),
{
    values.iter().copied().unique().collect()
}

/// Reads off the strength of each card's rank.
pub fn card_strengths(cards: &Vec<Card>) -> (vals: Vec<u8>)
    ensures
        vals@ == strengths(cards@),
        all_strengths(vals@),
{
    let mut vals: Vec<u8> = Vec::new();
    let mut i: usize = 0;
    while i < cards.len()
        invariant
            i <= cards.len(),
            vals@ == strengths(cards@.take(i as int)),
            all_strengths(vals@),
        decreases cards.len() - i,
    {
        let v: u8 = cards[i].rank.strength();
        proof {
            assert(strengths(cards@.take(i + 1)) =~= strengths(cards@.take(i as int)).push(v));
        }
        vals.push(v);
        i += 1;
    }
    proof {
        assert(cards@.take(cards.len() as int) =~= cards@);
    }
    vals
}

/// Sorts the values, largest first.
pub fn sort_descending(values: &Vec<u8>) -> (sorted: Vec<u8>)
    ensures
        descending(sorted@),
        sorted@.to_multiset() == values@.to_multiset(),
{
    let mut sorted: Vec<u8> = Vec::new();
    let mut i: usize = 0;
    proof {
        assert(values@.take(0) =~= sorted@);
    }
    while i < values.len()
        invariant
            i <= values.len(),
            descending(sorted@),
            sorted@.to_multiset() == values@.take(i as int).to_multiset(),
        decreases values.len() - i,
    {
        let v: u8 = values[i];
        let mut at: usize = 0;
        while at < sorted.len() && sorted[at] >= v
            invariant
                at <= sorted.len(),
                descending(sorted@),
                forall|k: int| 0 <= k < at ==> sorted@[k] >= v,
            decreases sorted.len() - at,
        {
            at += 1;
        }
        proof {
            to_multiset_insert(sorted@, at as int, v);
            to_multiset_build(values@.take(i as int), v);
            assert(values@.take(i + 1) =~= values@.take(i as int).push(v));
        }
        sorted.insert(at, v);
        i += 1;
    }
    proof {
        assert(values@.take(values.len() as int) =~= values@);
    }
    sorted
}

/// A sequence sorted from another holds the same values, and holds none
/// twice if the other held none twice.
pub proof fn lemma_rearranged(a: Seq<u8>, b: Seq<u8>)
    requires
        a.to_multiset() == b.to_multiset(),
    ensures
        same_values(a, b),
        a.len() == b.len(),
        a.no_duplicates() <==> b.no_duplicates(),
{
    broadcast use {to_multiset_contains, to_multiset_len};

    assert forall|v: u8| a.contains(v) <==> b.contains(v) by {
        assert(a.contains(v) <==> a.to_multiset().count(v) > 0);
        assert(b.contains(v) <==> b.to_multiset().count(v) > 0);
    }
    assert(a.len() == a.to_multiset().len());
    assert(b.len() == b.to_multiset().len());
    if a.no_duplicates() {
        a.lemma_multiset_has_no_duplicates();
        b.lemma_multiset_has_no_duplicates_conv();
    }
    if b.no_duplicates() {
        b.lemma_multiset_has_no_duplicates();
        a.lemma_multiset_has_no_duplicates_conv();
    }
}

/// Lists the strengths that occur among the cards' ranks, each once and
/// the strongest first.
pub fn descending_ranks(cards: &Vec<Card>) -> (keys: Vec<u8>)
    ensures
        strictly_descending(keys@),
        same_values(keys@, strengths(cards@)),
        all_strengths(keys@),
        keys@.len() <= cards@.len(),
{
    let vals: Vec<u8> = card_strengths(cards);
    let kept: Vec<u8> = unique_values(&vals);
    let keys: Vec<u8> = sort_descending(&kept);
    proof {
        lemma_first_occurrences(vals@);
        lemma_rearranged(keys@, kept@);
        assert forall|i: int| 0 <= i < keys@.len() implies 2 <= #[trigger] keys@[i] <= 14 by {
            assert(keys@.contains(keys@[i]));
            assert(vals@.contains(keys@[i]));
            let at = vals@.lemma_contains_to_index(keys@[i]);
            assert(2 <= vals@[at] <= 14);
        }
    }
    keys
}

/// Whether five strengths in a row, each one lower than the last, start
/// at place `at` of `keys`.
pub open spec fn window_at(keys: Seq<u8>, at: int) -> bool {
    &&& 0 <= at
    &&& at + 4 < keys.len()
    &&& keys[at] == keys[at + 1] + 1
    &&& keys[at] == keys[at + 2] + 2
    &&& keys[at] == keys[at + 3] + 3
    &&& keys[at] == keys[at + 4] + 4
}

/// Whether `keys` starts with the ace and ends with five, four, three and
/// deuce: the wheel, when the strongest strength stands first.
pub open spec fn wheel_in(keys: Seq<u8>) -> bool {
    let n = keys.len() as int;
    &&& n >= 5
    &&& keys[0] == 14
    &&& keys[n - 4] == 5
    &&& keys[n - 3] == 4
    &&& keys[n - 2] == 3
    &&& keys[n - 1] == 2
}

/// In a strictly descending sequence a value and the next lower value,
/// where both occur, stand side by side.
proof fn lemma_neighbours(keys: Seq<u8>, i: int, j: int)
    requires
        strictly_descending(keys),
        0 <= i < keys.len(),
        0 <= j < keys.len(),
        keys[i] == keys[j] + 1,
    ensures
        j == i + 1,
{
    if j <= i {
        if j < i {
            assert(keys[j] > keys[i]);
        }
    } else if i + 1 < j {
        assert(keys[i] > keys[i + 1]);
        assert(keys[i + 1] > keys[j]);
    }
}

/// A run with the ace high shows as a window, and a window is such a run.
pub(crate) proof fn lemma_run_is_window(keys: Seq<u8>, top: u8)
    requires
        strictly_descending(keys),
        all_strengths(keys),
    ensures
        run_at(keys, top) && top != 5 <==> exists|at: int| window_at(keys, at) && keys[at] == top,
{
    if run_at(keys, top) && top != 5 {
        let i0 = keys.lemma_contains_to_index(top);
        let i1 = keys.lemma_contains_to_index((top - 1) as u8);
        let i2 = keys.lemma_contains_to_index((top - 2) as u8);
        let i3 = keys.lemma_contains_to_index((top - 3) as u8);
        let i4 = keys.lemma_contains_to_index((top - 4) as u8);
        lemma_neighbours(keys, i0, i1);
        lemma_neighbours(keys, i1, i2);
        lemma_neighbours(keys, i2, i3);
        lemma_neighbours(keys, i3, i4);
        assert(window_at(keys, i0));
    }
    if exists|at: int| window_at(keys, at) && keys[at] == top {
        let at = choose|at: int| window_at(keys, at) && keys[at] == top;
        assert(keys.contains(keys[at]));
        assert(keys.contains(keys[at + 1]));
        assert(keys.contains(keys[at + 2]));
        assert(keys.contains(keys[at + 3]));
        assert(keys.contains(keys[at + 4]));
        assert(2 <= keys[at + 4] <= 14);
    }
}

/// The wheel is a run that ends at the five, and the only such run.
proof fn lemma_run_is_wheel(keys: Seq<u8>)
    requires
        strictly_descending(keys),
        all_strengths(keys),
    ensures
        run_at(keys, 5) <==> wheel_in(keys),
{
    let n = keys.len() as int;
    if run_at(keys, 5) {
        let a = keys.lemma_contains_to_index(14);
        let i5 = keys.lemma_contains_to_index(5);
        let i4 = keys.lemma_contains_to_index(4);
        let i3 = keys.lemma_contains_to_index(3);
        let i2 = keys.lemma_contains_to_index(2);
        lemma_neighbours(keys, i5, i4);
        lemma_neighbours(keys, i4, i3);
        lemma_neighbours(keys, i3, i2);
        if a > 0 {
            assert(keys[0] > keys[a]);
        }
        if i2 < n - 1 {
            assert(keys[i2] > keys[n - 1]);
        }
        assert(a != i5);
    }
    if wheel_in(keys) {
        assert(keys.contains(keys[0]));
        assert(keys.contains(keys[n - 4]));
        assert(keys.contains(keys[n - 3]));
        assert(keys.contains(keys[n - 2]));
        assert(keys.contains(keys[n - 1]));
    }
}

/// Five strengths in a row take five places.
pub(crate) proof fn lemma_run_needs_five(keys: Seq<u8>, top: u8)
    requires
        strictly_descending(keys),
        run_at(keys, top),
    ensures
        keys.len() >= 5,
{
    let i0 = keys.lemma_contains_to_index(top);
    let i1 = keys.lemma_contains_to_index((top - 1) as u8);
    let i2 = keys.lemma_contains_to_index((top - 2) as u8);
    let i3 = keys.lemma_contains_to_index((top - 3) as u8);
    lemma_neighbours(keys, i0, i1);
    lemma_neighbours(keys, i1, i2);
    lemma_neighbours(keys, i2, i3);
    let low = keys.lemma_contains_to_index(run_floor(top));
    if top == 5 {
        if low >= i0 {
            if low > i0 {
                assert(keys[i0] > keys[low]);
            }
        }
    } else {
        lemma_neighbours(keys, i3, low);
    }
}

/// Searches strengths that stand each once and the strongest first for the
/// best straight: windows of five from the top down, then the wheel.
pub(crate) fn straight_in(keys: &Vec<u8>) -> (top: Option<u8>)
    requires
        strictly_descending(keys@),
        all_strengths(keys@),
    ensures
        is_best_run(keys@, top),
{
    let n: usize = keys.len();
    if n < 5 {
        proof {
            assert forall|t: u8| !run_at(keys@, t) by {
                if run_at(keys@, t) {
                    lemma_run_needs_five(keys@, t);
                }
            }
        }
        return None;
    }
    let mut at: usize = 0;
    while at <= n - 5
        invariant
            n == keys@.len(),
            n >= 5,
            at + 4 <= n,
            strictly_descending(keys@),
            all_strengths(keys@),
            forall|before: int| 0 <= before < at ==> !window_at(keys@, before),
        decreases n - at,
    {
        let first: u8 = keys[at];
        if first == keys[at + 1] + 1 && first == keys[at + 2] + 2 && first == keys[at + 3] + 3
            && first == keys[at + 4] + 4 {
            proof {
                assert(window_at(keys@, at as int));
                lemma_run_is_window(keys@, first);
                assert forall|higher: u8| first < higher implies !run_at(keys@, higher) by {
                    lemma_run_is_window(keys@, higher);
                    if run_at(keys@, higher) {
                        let w = choose|w: int| window_at(keys@, w) && keys@[w] == higher;
                        if w > at {
                            assert(keys@[at as int] > keys@[w]);
                        }
                    }
                }
            }
            return Some(first);
        }
        at += 1;
    }
    proof {
        lemma_run_is_wheel(keys@);
        assert forall|t: u8| t != 5 implies !run_at(keys@, t) by {
            lemma_run_is_window(keys@, t);
        }
    }
    if keys[0] == 14 && keys[n - 4] == 5 && keys[n - 3] == 4 && keys[n - 2] == 3 && keys[n - 1]
        == 2 {
        Some(5)
    } else {
        None
    }
}

/// Moves a run between two sequences that hold the same values.
pub proof fn lemma_same_values_same_runs(a: Seq<u8>, b: Seq<u8>)
    requires
        same_values(a, b),
    ensures
        forall|t: u8| run_at(a, t) <==> run_at(b, t),
        has_straight(a) <==> has_straight(b),
        forall|top: Option<u8>| is_best_run(a, top) <==> is_best_run(b, top),
{
    assert forall|t: u8| run_at(a, t) <==> run_at(b, t) by {}
    assert(has_straight(a) <==> has_straight(b)) by {
        if has_straight(a) {
            let t = choose|t: u8| run_at(a, t);
            assert(run_at(b, t));
        }
        if has_straight(b) {
            let t = choose|t: u8| run_at(b, t);
            assert(run_at(a, t));
        }
    }
}

/// Finds the best straight among the cards' ranks: the strength of its
/// highest card, which is 5 for the wheel, or nothing where the ranks hold
/// no straight. The order of the cards and ranks held twice do not matter.
pub fn straight_top(cards: &Vec<Card>) -> (top: Option<u8>)
    ensures
        is_best_run(strengths(cards@), top),
        top is Some <==> has_straight(strengths(cards@)),
{
    let keys: Vec<u8> = descending_ranks(cards);
    let top: Option<u8> = straight_in(&keys);
    proof {
        lemma_same_values_same_runs(keys@, strengths(cards@));
        if top is Some {
            assert(run_at(strengths(cards@), top->Some_0));
        }
    }
    top
}

/// Tells whether the cards' ranks hold a straight.
pub fn judge_straight(cards: &Vec<Card>) -> (found: bool)
    ensures
        found == has_straight(strengths(cards@)),
{
    straight_top(cards).is_some()
}

} // verus!
