//! The character tally: how often each character has been recorded.

use crate::ranking::{is_ranking_of, itemizes, ranks_before, CharCount};
use crate::sort::sort_by_rank;
use std::collections::HashMap;
use vstd::multiset::Multiset;
use vstd::prelude::*;

verus! {

broadcast use vstd::std_specs::hash::group_hash_axioms;

/// A reordering of a list that itemizes a tally itemizes it too.
proof fn lemma_reordering_itemizes(
    entries: Seq<CharCount>,
    reordered: Seq<CharCount>,
    tally: Multiset<char>,
)
    requires
        itemizes(entries, tally),
        reordered.to_multiset() == entries.to_multiset(),
    ensures
        itemizes(reordered, tally),
{
    entries.to_multiset_ensures();
    reordered.to_multiset_ensures();
    assert forall|i: int| 0 <= i < reordered.len() implies entries.contains(
        #[trigger] reordered[i],
    ) by {
        assert(reordered.contains(reordered[i]));
        assert(entries.to_multiset().count(reordered[i]) > 0);
    }
    assert forall|i: int| 0 <= i < entries.len() implies reordered.contains(
        #[trigger] entries[i],
    ) by {
        assert(entries.contains(entries[i]));
        assert(reordered.to_multiset().count(entries[i]) > 0);
    }
    assert(entries.no_duplicates());
    entries.lemma_multiset_has_no_duplicates();
    reordered.lemma_multiset_has_no_duplicates_conv();
    assert forall|i: int| 0 <= i < reordered.len() implies (#[trigger] reordered[i]).count > 0
        && reordered[i].count == tally.count(reordered[i].character) by {
        let k = choose|k: int| 0 <= k < entries.len() && entries[k] == reordered[i];
        assert(entries[k].count > 0);
    }
    assert forall|i: int, j: int| 0 <= i < j < reordered.len() implies (#[trigger] reordered[i]).character
        != (#[trigger] reordered[j]).character by {
        let k = choose|k: int| 0 <= k < entries.len() && entries[k] == reordered[i];
        let l = choose|l: int| 0 <= l < entries.len() && entries[l] == reordered[j];
        assert(reordered[i] != reordered[j]);
        assert(k != l);
        if k < l {
            assert(entries[k].character != entries[l].character);
        } else {
            assert(entries[l].character != entries[k].character);
        }
    }
    assert forall|c: char| #[trigger] tally.count(c) > 0 implies exists|i: int|
        0 <= i < reordered.len() && (#[trigger] reordered[i]).character == c by {
        let k = choose|k: int| 0 <= k < entries.len() && (#[trigger] entries[k]).character == c;
        assert(reordered.contains(entries[k]));
        let i = choose|i: int| 0 <= i < reordered.len() && reordered[i] == entries[k];
        assert(reordered[i].character == c);
    }
}

/// A tally of characters. Its view is the multiset of the characters recorded
/// so far.
pub struct Tally {
    /// One entry per distinct character with its count, in order of first
    /// appearance.
    entries: Vec<CharCount>,
    /// The position in `entries` of each distinct character, by scalar value.
    positions: HashMap<u32, usize>,
    /// The number of characters recorded.
    total: usize,
    recorded: Ghost<Multiset<char>>,
}

impl View for Tally {
    type V = Multiset<char>;

    closed spec fn view(&self) -> Multiset<char> {
        self.recorded@
    }
}

impl Tally {
    /// The invariant that ties the stored counts to the recorded characters.
    pub closed spec fn well_formed(&self) -> bool {
        &&& self.total == self.recorded@.len()
        &&& itemizes(self.entries@, self.recorded@)
        &&& forall|i: int|
            0 <= i < self.entries@.len() ==> {
                let key = (#[trigger] self.entries@[i]).character as u32;
                self.positions@.contains_key(key) && self.positions@[key] == i
            }
        &&& forall|key: u32| #[trigger]
            self.positions@.contains_key(key) ==> {
                let position = self.positions@[key] as int;
                position < self.entries@.len() && self.entries@[position].character as u32 == key
            }
    }

    /// An empty tally.
    pub fn new() -> (tally: Tally)
        ensures
            tally.well_formed(),
            tally@ == Multiset::<char>::empty(),
    {
        Tally {
            entries: Vec::new(),
            positions: HashMap::new(),
            total: 0,
            recorded: Ghost(Multiset::empty()),
        }
    }

    /// The number of characters recorded.
    pub fn total(&self) -> (total: usize)
        requires
            self.well_formed(),
        ensures
            total == self@.len(),
    {
        self.total
    }

    /// The ranking of the tally: one entry per distinct character with its
    /// count, the highest count first and, of equal counts, the lowest scalar
    /// value first.
    pub fn ranked(&self) -> (ranked: Vec<CharCount>)
        requires
            self.well_formed(),
        ensures
            is_ranking_of(ranked@, self@),
    {
        let ranked = sort_by_rank(&self.entries);
        proof {
            lemma_reordering_itemizes(self.entries@, ranked@, self@);
            assert forall|i: int, j: int| 0 <= i < j < ranked@.len() implies ranks_before(
                #[trigger] ranked@[i],
                #[trigger] ranked@[j],
            ) by {
                assert(!ranks_before(ranked@[j], ranked@[i]));
                assert(ranked@[i].character != ranked@[j].character);
            }
        }
        ranked
    }

    /// Records one occurrence of `c`.
    pub fn record(&mut self, c: char)
        requires
            old(self).well_formed(),
            old(self)@.len() < usize::MAX,
        ensures
            final(self).well_formed(),
            final(self)@ == old(self)@.insert(c),
    {
        broadcast use vstd::multiset::group_multiset_properties;

        let key: u32 = c as u32;
        let ghost before = *self;
        match self.positions.get(&key) {
            Some(position) => {
                let position: usize = *position;
                let entry = self.entries[position];
                assert(entry.character == c);
                self.entries.set(position, CharCount { character: c, count: entry.count + 1 });
            },
            None => {
                proof {
                    if before.recorded@.count(c) > 0 {
                        let i = choose|i: int|
                            0 <= i < before.entries@.len() && (
                            #[trigger] before.entries@[i]).character == c;
                        assert(before.positions@.contains_key(before.entries@[i].character as u32));
                    }
                }
                self.positions.insert(key, self.entries.len());
                self.entries.push(CharCount { character: c, count: 1 });
            },
        }
        self.total = self.total + 1;
        self.recorded = Ghost(self.recorded@.insert(c));
        proof {
            let entries = self.entries@;
            let recorded = self.recorded@;
            assert forall|i: int| 0 <= i < entries.len() implies (#[trigger] entries[i]).count > 0
                && entries[i].count == recorded.count(entries[i].character) by {
                if i < before.entries@.len() {
                    let earlier = before.entries@[i];
                    assert(before.positions@[earlier.character as u32] == i);
                }
            }
            assert forall|i: int| 0 <= i < entries.len() implies {
                let key = (#[trigger] entries[i]).character as u32;
                self.positions@.contains_key(key) && self.positions@[key] == i
            } by {
                if i < before.entries@.len() {
                    let earlier = before.entries@[i];
                    assert(before.positions@[earlier.character as u32] == i);
                }
            }
            assert forall|i: int, j: int| 0 <= i < j < entries.len() implies (
            #[trigger] entries[i]).character != (#[trigger] entries[j]).character by {
                assert(self.positions@[entries[i].character as u32] == i);
                assert(self.positions@[entries[j].character as u32] == j);
            }
            assert forall|x: char| #[trigger] recorded.count(x) > 0 implies exists|i: int|
                0 <= i < entries.len() && (#[trigger] entries[i]).character == x by {
                if x == c {
                    let i = self.positions@[key] as int;
                    assert(entries[i].character == c);
                } else {
                    assert(before.recorded@.count(x) > 0);
                    let i = choose|i: int|
                        0 <= i < before.entries@.len() && (#[trigger] before.entries@[i]).character
                            == x;
                    assert(entries[i].character == x);
                }
            }
        }
    }
}

} // verus!
