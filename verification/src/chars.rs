//! Character classification and case folding.

use vstd::prelude::*;

verus! {

/// The scalar values that carry the Unicode `White_Space` property.
pub open spec fn spec_is_whitespace(c: char) -> bool {
    ||| '\u{9}' <= c <= '\u{d}'
    ||| c == ' '
    ||| c == '\u{85}'
    ||| c == '\u{a0}'
    ||| c == '\u{1680}'
    ||| '\u{2000}' <= c <= '\u{200a}'
    ||| c == '\u{2028}'
    ||| c == '\u{2029}'
    ||| c == '\u{202f}'
    ||| c == '\u{205f}'
    ||| c == '\u{3000}'
}

/// Tells whether `c` is whitespace.
#[verifier::when_used_as_spec(spec_is_whitespace)]
pub fn is_whitespace(c: char) -> (r: bool)
    ensures
        r == spec_is_whitespace(c),
{
    match c {
        '\u{9}'..='\u{d}' | ' ' | '\u{85}' | '\u{a0}' | '\u{1680}' => true,
        '\u{2000}'..='\u{200a}' | '\u{2028}' | '\u{2029}' | '\u{202f}' | '\u{205f}' => true,
        '\u{3000}' => true,
        _ => false,
    }
}

/// The lowercase mapping of `c`: the scalar values that `char::to_lowercase`
/// yields for it, in the order in which it yields them.
pub uninterp spec fn lowercase_mapping(c: char) -> Seq<char>;

/// Calls `char::to_lowercase` and collects everything the returned iterator
/// yields. The result is the lowercase mapping of `c`, which according to the
/// standard library's documentation always holds one or more scalar values.
#[verifier::external_body]
fn to_lowercase(c: char) -> (mapping: Vec<char>)
    ensures
        mapping@ == lowercase_mapping(c),
        mapping@.len() >= 1,
{
    c.to_lowercase().collect()
}

/// The normalized form of `c`: the first scalar value of its lowercase mapping.
pub open spec fn spec_normalize(c: char) -> char {
    lowercase_mapping(c).first()
}

/// Folds `c` to lowercase. Where the lowercase form expands to several scalar
/// values, only the first one is kept.
#[verifier::when_used_as_spec(spec_normalize)]
pub fn normalize(c: char) -> (r: char)
    ensures
        r == spec_normalize(c),
{
    let mapping = to_lowercase(c);
    mapping[0]
}

} // verus!
