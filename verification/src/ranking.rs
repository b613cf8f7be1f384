//! Ranked entries: the order in which they are reported, what makes a list of
//! them the ranking of a tally, and what holds of every ranking.

use vstd::multiset::Multiset;
use vstd::prelude::*;

verus! {

/// A character together with the number of its occurrences.
#[derive(Clone, Copy, Debug, PartialEq, Eq, Structural)]
pub struct CharCount {
    pub character: char,
    pub count: usize,
}

/// Whether entry `a` is reported before entry `b`: the higher count comes
/// first, and of two equal counts the lower scalar value.
pub open spec fn ranks_before(a: CharCount, b: CharCount) -> bool {
    a.count > b.count || (a.count == b.count && a.character < b.character)
}

/// Whether `entries` lists `tally` character by character: every character
/// that occurs in `tally` has exactly one entry, which holds the number of its
/// occurrences, and there is no other entry.
pub open spec fn itemizes(entries: Seq<CharCount>, tally: Multiset<char>) -> bool {
    &&& forall|i: int|
        0 <= i < entries.len() ==> (#[trigger] entries[i]).count > 0 && entries[i].count == tally.count(
            entries[i].character,
        )
    &&& forall|i: int, j: int|
        0 <= i < j < entries.len() ==> (#[trigger] entries[i]).character != (#[trigger] entries[j]).character
    &&& forall|c: char| #[trigger]
        tally.count(c) > 0 ==> exists|i: int| 0 <= i < entries.len() && (#[trigger] entries[i]).character == c
}

/// Whether `ranked` is the ranking of `tally`: it lists `tally` character by
/// character, and each entry is reported before all that follow it.
pub open spec fn is_ranking_of(ranked: Seq<CharCount>, tally: Multiset<char>) -> bool {
    &&& itemizes(ranked, tally)
    &&& forall|i: int, j: int|
        0 <= i < j < ranked.len() ==> ranks_before(#[trigger] ranked[i], #[trigger] ranked[j])
}

/// The sum of the counts of `entries`.
pub open spec fn count_sum(entries: Seq<CharCount>) -> nat
    decreases entries.len(),
{
    if entries.len() == 0 {
        0
    } else {
        count_sum(entries.drop_last()) + entries.last().count as nat
    }
}

/// A multiset in which nothing but `c` occurs has as many elements as it has
/// occurrences of `c`.
proof fn lemma_len_of_repeated(tally: Multiset<char>, c: char)
    requires
        forall|x: char| x != c ==> tally.count(x) == 0,
    ensures
        tally.len() == tally.count(c),
    decreases tally.count(c),
{
    if tally.count(c) == 0 {
        assert(tally =~= Multiset::empty());
    } else {
        let one = Multiset::singleton(c);
        assert(one.subset_of(tally));
        lemma_len_of_repeated(tally.sub(one), c);
    }
}

/// The counts of a list that itemizes a tally add up to the size of the tally.
pub proof fn lemma_counts_sum_to_total(entries: Seq<CharCount>, tally: Multiset<char>)
    requires
        itemizes(entries, tally),
    ensures
        count_sum(entries) == tally.len(),
    decreases entries.len(),
{
    if entries.len() == 0 {
        assert forall|c: char| tally.count(c) == 0 by {}
        assert(tally =~= Multiset::empty());
    } else {
        let last = entries.last();
        let rest = entries.drop_last();
        let of_last = tally.filter(|x: char| x == last.character);
        let of_rest = tally.sub(of_last);
        assert(of_last.subset_of(tally));
        lemma_len_of_repeated(of_last, last.character);
        assert forall|c: char| #[trigger] of_rest.count(c) > 0 implies exists|i: int|
            0 <= i < rest.len() && (#[trigger] rest[i]).character == c by {
            assert(tally.count(c) > 0);
            let i = choose|i: int| 0 <= i < entries.len() && (#[trigger] entries[i]).character == c;
            assert(rest[i] == entries[i]);
        }
        assert forall|i: int| 0 <= i < rest.len() implies (#[trigger] rest[i]).count
            == of_rest.count(rest[i].character) by {
            assert(rest[i] == entries[i]);
        }
        lemma_counts_sum_to_total(rest, of_rest);
    }
}

/// Whether the counts of `ranked` never rise from one entry to the next.
pub open spec fn counts_descend(ranked: Seq<CharCount>) -> bool {
    forall|i: int| 0 <= i < ranked.len() - 1 ==> (#[trigger] ranked[i]).count >= ranked[i + 1].count
}

/// In the ranking of a tally the counts never rise from one entry to the next.
pub proof fn lemma_ranking_counts_descend(ranked: Seq<CharCount>, tally: Multiset<char>)
    requires
        is_ranking_of(ranked, tally),
    ensures
        counts_descend(ranked),
{
    assert forall|i: int| 0 <= i < ranked.len() - 1 implies (#[trigger] ranked[i]).count
        >= ranked[i + 1].count by {
        assert(ranks_before(ranked[i], ranked[i + 1]));
    }
}

/// The ranking of a tally is empty exactly if the tally is.
pub proof fn lemma_ranking_empty(ranked: Seq<CharCount>, tally: Multiset<char>)
    requires
        is_ranking_of(ranked, tally),
    ensures
        ranked.len() == 0 <==> tally.len() == 0,
{
    lemma_counts_sum_to_total(ranked, tally);
    if ranked.len() > 0 {
        assert(ranked.last().count > 0);
    }
}

/// Two lists in which every entry is reported before all that follow it, and
/// which hold the same entries, are the same list.
proof fn lemma_same_entries_same_order(a: Seq<CharCount>, b: Seq<CharCount>)
    requires
        forall|i: int, j: int| 0 <= i < j < a.len() ==> ranks_before(#[trigger] a[i], #[trigger] a[j]),
        forall|i: int, j: int| 0 <= i < j < b.len() ==> ranks_before(#[trigger] b[i], #[trigger] b[j]),
        forall|x: CharCount| a.contains(x) <==> b.contains(x),
    ensures
        a == b,
    decreases a.len(),
{
    if a.len() == 0 {
        if b.len() > 0 {
            assert(b.contains(b[0]));
        }
        assert(a =~= b);
    } else {
        assert(a.contains(a[0]));
        let k = choose|k: int| 0 <= k < b.len() && b[k] == a[0];
        assert(b.contains(b[0]));
        let m = choose|m: int| 0 <= m < a.len() && a[m] == b[0];
        if k > 0 {
            assert(ranks_before(b[0], b[k]));
            if m > 0 {
                assert(ranks_before(a[0], a[m]));
            }
        }
        assert(a[0] == b[0]);
        let a_rest = a.drop_first();
        let b_rest = b.drop_first();
        assert forall|x: CharCount| a_rest.contains(x) <==> b_rest.contains(x) by {
            if a_rest.contains(x) {
                let i = choose|i: int| 0 <= i < a_rest.len() && a_rest[i] == x;
                assert(ranks_before(a[0], a[i + 1]));
                assert(a.contains(a[i + 1]));
                let j = choose|j: int| 0 <= j < b.len() && b[j] == x;
                assert(b_rest[j - 1] == x);
            }
            if b_rest.contains(x) {
                let i = choose|i: int| 0 <= i < b_rest.len() && b_rest[i] == x;
                assert(ranks_before(b[0], b[i + 1]));
                assert(b.contains(b[i + 1]));
                let j = choose|j: int| 0 <= j < a.len() && a[j] == x;
                assert(a_rest[j - 1] == x);
            }
        }
        assert forall|i: int, j: int| 0 <= i < j < a_rest.len() implies ranks_before(
            #[trigger] a_rest[i],
            #[trigger] a_rest[j],
        ) by {
            assert(ranks_before(a[i + 1], a[j + 1]));
        }
        assert forall|i: int, j: int| 0 <= i < j < b_rest.len() implies ranks_before(
            #[trigger] b_rest[i],
            #[trigger] b_rest[j],
        ) by {
            assert(ranks_before(b[i + 1], b[j + 1]));
        }
        lemma_same_entries_same_order(a_rest, b_rest);
        assert(a =~= seq![a[0]] + a_rest);
        assert(b =~= seq![b[0]] + b_rest);
    }
}

/// A tally has only one ranking.
pub proof fn lemma_ranking_unique(a: Seq<CharCount>, b: Seq<CharCount>, tally: Multiset<char>)
    requires
        is_ranking_of(a, tally),
        is_ranking_of(b, tally),
    ensures
        a == b,
{
    assert forall|x: CharCount| a.contains(x) <==> b.contains(x) by {
        if a.contains(x) {
            let i = choose|i: int| 0 <= i < a.len() && a[i] == x;
            assert(tally.count(a[i].character) > 0);
            let j = choose|j: int| 0 <= j < b.len() && (#[trigger] b[j]).character == x.character;
            assert(b[j] == x);
        }
        if b.contains(x) {
            let i = choose|i: int| 0 <= i < b.len() && b[i] == x;
            assert(tally.count(b[i].character) > 0);
            let j = choose|j: int| 0 <= j < a.len() && (#[trigger] a[j]).character == x.character;
            assert(a[j] == x);
        }
    }
    lemma_same_entries_same_order(a, b);
}

} // verus!
