//! Frequency analysis of a text.

use crate::chars::{is_whitespace, normalize, spec_is_whitespace, spec_normalize};
use crate::ranking::{
    count_sum, counts_descend, is_ranking_of, lemma_counts_sum_to_total,
    lemma_ranking_counts_descend, lemma_ranking_empty, CharCount,
};
use crate::tally::Tally;
use vstd::multiset::Multiset;
use vstd::prelude::*;
use vstd::seq_lib::to_multiset_build;
use vstd::string::StringSliceAdditionalSpecFns;
use vstd::utf8::{encode_scalar, encode_utf8};

verus! {

/// The number of characters of `text` that are not whitespace.
pub open spec fn total_count(text: Seq<char>) -> nat {
    text.filter(|c: char| !spec_is_whitespace(c)).len()
}

/// The characters of `text` that are not whitespace, each in its normalized
/// form.
pub open spec fn normalized_text(text: Seq<char>) -> Seq<char> {
    text.filter(|c: char| !spec_is_whitespace(c)).map_values(|c: char| spec_normalize(c))
}

/// The tally of `text`: how often each normalized character occurs in it.
pub open spec fn tally_of(text: Seq<char>) -> Multiset<char> {
    normalized_text(text).to_multiset()
}

/// Extending a text by one character extends its normalized form by that
/// character's normalized form, unless the character is whitespace.
proof fn lemma_normalized_text_push(text: Seq<char>, c: char)
    ensures
        normalized_text(text.push(c)) == if spec_is_whitespace(c) {
            normalized_text(text)
        } else {
            normalized_text(text).push(spec_normalize(c))
        },
{
    let counted = |c: char| !spec_is_whitespace(c);
    text.lemma_filter_push(c, counted);
    assert(normalized_text(text.push(c)) =~= if spec_is_whitespace(c) {
        normalized_text(text)
    } else {
        normalized_text(text).push(spec_normalize(c))
    });
}

/// The UTF-8 encoding of a text has at least one byte per character.
proof fn lemma_encoding_no_shorter(text: Seq<char>)
    ensures
        encode_utf8(text).len() >= text.len(),
    decreases text.len(),
{
    if text.len() > 0 {
        lemma_encoding_no_shorter(text.drop_first());
        assert(encode_scalar(text[0] as u32).len() >= 1);
    }
}

/// The tally of a text grows by the normalized form of each character that
/// is appended and is not whitespace, and so does the count of characters.
proof fn lemma_tally_of_push(text: Seq<char>, c: char)
    ensures
        tally_of(Seq::<char>::empty()) == Multiset::<char>::empty(),
        tally_of(text.push(c)) == if spec_is_whitespace(c) {
            tally_of(text)
        } else {
            tally_of(text).insert(spec_normalize(c))
        },
        tally_of(text).len() == total_count(text),
        total_count(text) <= text.len(),
{
    let counted = |c: char| !spec_is_whitespace(c);
    Seq::<char>::empty().lemma_filter_len(counted);
    assert(normalized_text(Seq::<char>::empty()) =~= Seq::<char>::empty());
    Seq::<char>::empty().to_multiset_ensures();
    assert(tally_of(Seq::<char>::empty()) =~= Multiset::<char>::empty());
    lemma_normalized_text_push(text, c);
    to_multiset_build(normalized_text(text), spec_normalize(c));
    normalized_text(text).to_multiset_ensures();
    text.lemma_filter_len(counted);
}

/// Counts the characters of `text` that are not whitespace and ranks them,
/// letter case set aside, by the number of their occurrences.
pub fn analyze_text(text: &str) -> (analysis: (usize, Vec<CharCount>))
    ensures
        analysis.0 == total_count(text@),
        is_ranking_of(analysis.1@, tally_of(text@)),
        count_sum(analysis.1@) == analysis.0,
        counts_descend(analysis.1@),
        analysis.0 == 0 ==> analysis.1@.len() == 0,
{
    let byte_count: usize = text.as_bytes().len();
    proof {
        lemma_encoding_no_shorter(text@);
        lemma_tally_of_push(text@, ' ');
        assert(text@.take(0) =~= Seq::<char>::empty());
    }
    let mut tally = Tally::new();
    for c in it: text.chars()
        invariant
            it.seq() == text@,
            text@.len() <= byte_count,
            tally.well_formed(),
            tally@ == tally_of(text@.take(it.index())),
    {
        proof {
            let seen = text@.take(it.index());
            assert(text@.take(it.index() + 1) =~= seen.push(c));
            lemma_tally_of_push(seen, c);
        }
        if !is_whitespace(c) {
            tally.record(normalize(c));
        }
    }
    let total: usize = tally.total();
    let ranked = tally.ranked();
    proof {
        assert(text@.take(text@.len() as int) =~= text@);
        lemma_tally_of_push(text@, ' ');
        lemma_counts_sum_to_total(ranked@, tally@);
        lemma_ranking_counts_descend(ranked@, tally@);
        lemma_ranking_empty(ranked@, tally@);
    }
    (total, ranked)
}

} // verus!
