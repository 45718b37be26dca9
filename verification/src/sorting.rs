//! Sorting of version numbers.

use vstd::multiset::lemma_multiset_empty_len;
use vstd::prelude::*;
use vstd::relations::{sorted_by, total_ordering};
use vstd::seq_lib::{
    lemma_multiset_commutative, lemma_sorted_unique, to_multiset_build, to_multiset_len,
};

verus! {

/// The order of the versions: the smaller number comes first.
pub open spec fn ascending() -> spec_fn(u32, u32) -> bool {
    |a: u32, b: u32| a <= b
}

/// Whether no number in `values` is followed by a smaller one.
pub open spec fn is_ascending(values: Seq<u32>) -> bool {
    forall|i: int, j: int| 0 <= i < j < values.len() ==> values[i] <= values[j]
}

/// `values` put in ascending order.
pub open spec fn in_ascending_order(values: Seq<u32>) -> Seq<u32> {
    values.sort_by(ascending())
}

/// Putting numbers in ascending order rearranges them and changes nothing
/// else: the result is ascending and holds each number as often as before.
pub proof fn lemma_in_ascending_order(values: Seq<u32>)
    ensures
        is_ascending(in_ascending_order(values)),
        in_ascending_order(values).to_multiset() == values.to_multiset(),
        in_ascending_order(values).len() == values.len(),
{
    values.lemma_sort_by_ensures(ascending());
    let sorted = in_ascending_order(values);
    assert(is_ascending(sorted)) by {
        assert forall|i: int, j: int| 0 <= i < j < sorted.len() implies sorted[i] <= sorted[j] by {
            assert(ascending()(sorted[i], sorted[j]));
        }
    }
    values.to_multiset_ensures();
    sorted.to_multiset_ensures();
}

/// There is one way only to put numbers in ascending order.
pub proof fn lemma_ascending_order_is_unique(sorted: Seq<u32>, values: Seq<u32>)
    requires
        is_ascending(sorted),
        sorted.to_multiset() == values.to_multiset(),
    ensures
        sorted == in_ascending_order(values),
{
    values.lemma_sort_by_ensures(ascending());
    lemma_sorted_unique(sorted, in_ascending_order(values), ascending());
}

/// Merges two ascending runs into one.
fn merge(left: &Vec<u32>, right: &Vec<u32>) -> (merged: Vec<u32>)
    requires
        is_ascending(left@),
        is_ascending(right@),
    ensures
        is_ascending(merged@),
        merged@.to_multiset() == left@.to_multiset().add(right@.to_multiset()),
{
    broadcast use vstd::multiset::group_multiset_axioms;

    let mut merged: Vec<u32> = Vec::new();
    let mut i: usize = 0;
    let mut j: usize = 0;
    proof {
        let nothing = Seq::<u32>::empty();
        assert(left@.take(0) =~= nothing);
        assert(right@.take(0) =~= nothing);
        to_multiset_len(nothing);
        lemma_multiset_empty_len(nothing.to_multiset());
    }
    while i < left.len() || j < right.len()
        invariant
            i <= left.len(),
            j <= right.len(),
            is_ascending(left@),
            is_ascending(right@),
            is_ascending(merged@),
            merged@.to_multiset() == left@.take(i as int).to_multiset().add(
                right@.take(j as int).to_multiset(),
            ),
            forall|k: int| 0 <= k < merged.len() && i < left.len() ==> merged[k] <= left[i as int],
            forall|k: int|
                0 <= k < merged.len() && j < right.len() ==> merged[k] <= right[j as int],
        decreases (left.len() - i) + (right.len() - j),
    {
        let ghost before = merged@;
        let ghost taken_left = left@.take(i as int);
        let ghost taken_right = right@.take(j as int);
        if j == right.len() || (i < left.len() && left[i] <= right[j]) {
            let next = left[i];
            merged.push(next);
            i += 1;
            proof {
                assert(left@.take(i as int) =~= taken_left.push(next));
                to_multiset_build(before, next);
                to_multiset_build(taken_left, next);
                assert(merged@.to_multiset() =~= left@.take(i as int).to_multiset().add(
                    taken_right.to_multiset(),
                ));
            }
        } else {
            let next = right[j];
            merged.push(next);
            j += 1;
            proof {
                assert(right@.take(j as int) =~= taken_right.push(next));
                to_multiset_build(before, next);
                to_multiset_build(taken_right, next);
                assert(merged@.to_multiset() =~= taken_left.to_multiset().add(
                    right@.take(j as int).to_multiset(),
                ));
            }
        }
    }
    assert(left@.take(i as int) =~= left@);
    assert(right@.take(j as int) =~= right@);
    merged
}

/// Sorts `values` into ascending order, by merging sorted halves.
pub fn sort_ascending(values: &[u32]) -> (sorted: Vec<u32>)
    ensures
        sorted@ == in_ascending_order(values@),
        is_ascending(sorted@),
        sorted@.to_multiset() == values@.to_multiset(),
    decreases values.len(),
{
    let len = values.len();
    if len <= 1 {
        let mut sorted: Vec<u32> = Vec::new();
        if len == 1 {
            sorted.push(values[0]);
        }
        proof {
            assert(sorted@ =~= values@);
            lemma_ascending_order_is_unique(sorted@, values@);
        }
        sorted
    } else {
        let mid = len / 2;
        let ghost front = values@.subrange(0, mid as int);
        let ghost back = values@.subrange(mid as int, len as int);
        let left = sort_ascending(&values[0..mid]);
        let right = sort_ascending(&values[mid..len]);
        proof {
            lemma_in_ascending_order(front);
            lemma_in_ascending_order(back);
        }
        let sorted = merge(&left, &right);
        proof {
            lemma_multiset_commutative(front, back);
            assert(front + back =~= values@);
            lemma_ascending_order_is_unique(sorted@, values@);
        }
        sorted
    }
}

} // verus!
