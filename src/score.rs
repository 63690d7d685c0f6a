//! Similarity between two strings.
//!
//! Scores are Jaro-Winkler similarities in `[0, 1]`. They are carried as the
//! bit pattern of the IEEE-754 double that holds them: on non-negative
//! doubles the order of those patterns, read as unsigned integers, is the
//! numeric order, so scores are compared exactly as the doubles would be.
use vstd::prelude::*;

verus! {

/// The confidence threshold `0.8`, as the bit pattern of a double.
/// A candidate is suggested only when its score is strictly above it.
pub const CONFIDENCE_THRESHOLD_BITS: u64 = 0x3FE9_9999_9999_999A;

/// The score `1.0`, as the bit pattern of a double.
pub const SCORE_ONE_BITS: u64 = 0x3FF0_0000_0000_0000;

/// The score `0.0`, as the bit pattern of a double.
pub const SCORE_ZERO_BITS: u64 = 0;

/// The bit pattern of the Jaro-Winkler similarity of two strings, as
/// strsim computes it.
pub uninterp spec fn jaro_winkler_bits(a: Seq<char>, b: Seq<char>) -> u64;

/// The score of candidate `b` against target `a`: zero when either string is
/// empty, the Jaro-Winkler similarity otherwise.
pub open spec fn score(a: Seq<char>, b: Seq<char>) -> u64 {
    if a.len() == 0 || b.len() == 0 {
        SCORE_ZERO_BITS
    } else {
        jaro_winkler_bits(a, b)
    }
}

/// Relies on strsim::jaro_winkler: a deterministic similarity of the two
/// strings' characters, returned here as the bits of the double.
#[verifier::external_body]
fn jaro_winkler(a: &str, b: &str) -> (r: u64)
    ensures
        r == jaro_winkler_bits(a@, b@),
{
    strsim::jaro_winkler(a, b).to_bits()
}

/// The score of `b` against `a` (see [`score`]).
pub fn similarity(a: &str, b: &str) -> (r: u64)
    ensures
        r == score(a@, b@),
{
    if a.is_empty() || b.is_empty() {
        SCORE_ZERO_BITS
    } else {
        jaro_winkler(a, b)
    }
}

} // verus!
