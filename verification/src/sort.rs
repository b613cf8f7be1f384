//! A merge sort that brings entries into the order in which they are reported.

use crate::ranking::{ranks_before, CharCount};
use vstd::prelude::*;
use vstd::seq_lib::{lemma_multiset_commutative, to_multiset_build};

verus! {

/// Whether no entry of `entries` ranks before one that stands earlier.
pub open spec fn in_rank_order(entries: Seq<CharCount>) -> bool {
    forall|i: int, j: int| 0 <= i < j < entries.len() ==> !ranks_before(entries[j], entries[i])
}

fn precedes(a: CharCount, b: CharCount) -> (r: bool)
    ensures
        r == ranks_before(a, b),
{
    a.count > b.count || (a.count == b.count && a.character < b.character)
}

/// Merges two sequences that are in rank order into one.
fn merge(left: &Vec<CharCount>, right: &Vec<CharCount>) -> (merged: Vec<CharCount>)
    requires
        in_rank_order(left@),
        in_rank_order(right@),
    ensures
        in_rank_order(merged@),
        merged@.to_multiset() == left@.to_multiset().add(right@.to_multiset()),
{
    broadcast use vstd::seq_lib::group_to_multiset_ensures;

    let mut merged: Vec<CharCount> = Vec::new();
    let mut i: usize = 0;
    let mut j: usize = 0;
    assert(left@.take(0) =~= Seq::empty());
    assert(right@.take(0) =~= Seq::empty());
    while i < left.len() || j < right.len()
        invariant
            i <= left.len(),
            j <= right.len(),
            in_rank_order(left@),
            in_rank_order(right@),
            in_rank_order(merged@),
            merged@.to_multiset() =~= left@.take(i as int).to_multiset().add(
                right@.take(j as int).to_multiset(),
            ),
            forall|k: int|
                0 <= k < merged.len() && i < left.len() ==> !ranks_before(
                    left[i as int],
                    #[trigger] merged[k],
                ),
            forall|k: int|
                0 <= k < merged.len() && j < right.len() ==> !ranks_before(
                    right[j as int],
                    #[trigger] merged[k],
                ),
        decreases left.len() - i + right.len() - j,
    {
        let ghost before = merged@;
        if j == right.len() || (i < left.len() && !precedes(right[j], left[i])) {
            let entry = left[i];
            merged.push(entry);
            proof {
                assert(left@.take(i + 1) =~= left@.take(i as int).push(entry));
                to_multiset_build(left@.take(i as int), entry);
                assert(merged@ =~= before.push(entry));
                to_multiset_build(before, entry);
                assert forall|k: int| 0 <= k < merged.len() && j < right.len() implies !ranks_before(
                    right[j as int],
                    #[trigger] merged[k],
                ) by {
                    if k < before.len() {
                        assert(merged[k] == before[k]);
                    }
                }
                assert forall|k: int|
                    0 <= k < merged.len() && i + 1 < left.len() implies !ranks_before(
                    left[i + 1],
                    #[trigger] merged[k],
                ) by {
                    assert(!ranks_before(left[i + 1], left[i as int]));
                    if k < before.len() {
                        assert(merged[k] == before[k]);
                    }
                }
            }
            i += 1;
        } else {
            let entry = right[j];
            merged.push(entry);
            proof {
                assert(right@.take(j + 1) =~= right@.take(j as int).push(entry));
                to_multiset_build(right@.take(j as int), entry);
                assert(merged@ =~= before.push(entry));
                to_multiset_build(before, entry);
                assert forall|k: int| 0 <= k < merged.len() && i < left.len() implies !ranks_before(
                    left[i as int],
                    #[trigger] merged[k],
                ) by {
                    if k < before.len() {
                        assert(merged[k] == before[k]);
                    }
                }
                assert forall|k: int|
                    0 <= k < merged.len() && j + 1 < right.len() implies !ranks_before(
                    right[j + 1],
                    #[trigger] merged[k],
                ) by {
                    assert(!ranks_before(right[j + 1], right[j as int]));
                    if k < before.len() {
                        assert(merged[k] == before[k]);
                    }
                }
            }
            j += 1;
        }
    }
    assert(left@.take(i as int) =~= left@);
    assert(right@.take(j as int) =~= right@);
    merged
}

/// Sorts `entries[lo..hi]` into rank order.
fn sort_range(entries: &Vec<CharCount>, lo: usize, hi: usize) -> (sorted: Vec<CharCount>)
    requires
        lo <= hi <= entries.len(),
    ensures
        in_rank_order(sorted@),
        sorted@.to_multiset() == entries@.subrange(lo as int, hi as int).to_multiset(),
    decreases hi - lo,
{
    if hi - lo <= 1 {
        let mut sorted: Vec<CharCount> = Vec::new();
        if lo < hi {
            sorted.push(entries[lo]);
        }
        assert(sorted@ =~= entries@.subrange(lo as int, hi as int));
        sorted
    } else {
        let mid: usize = lo + (hi - lo) / 2;
        let left = sort_range(entries, lo, mid);
        let right = sort_range(entries, mid, hi);
        proof {
            let first = entries@.subrange(lo as int, mid as int);
            let second = entries@.subrange(mid as int, hi as int);
            assert(entries@.subrange(lo as int, hi as int) =~= first + second);
            lemma_multiset_commutative(first, second);
        }
        merge(&left, &right)
    }
}

/// Returns the entries of `entries` in rank order.
pub fn sort_by_rank(entries: &Vec<CharCount>) -> (sorted: Vec<CharCount>)
    ensures
        in_rank_order(sorted@),
        sorted@.to_multiset() == entries@.to_multiset(),
{
    assert(entries@.subrange(0, entries@.len() as int) =~= entries@);
    sort_range(entries, 0, entries.len())
}

} // verus!
