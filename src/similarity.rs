//! Calls into text services of other libraries: case folding, Jaro–Winkler
//! similarity and percent-decoding.
//!
//! A similarity score is carried as the bit pattern of the `f64` that the
//! similarity function returns. Scores are never negative, and on non-negative
//! doubles the order of the bit patterns is the numeric order, so comparing the
//! patterns as integers ranks candidates as comparing the doubles would.
use vstd::prelude::*;

verus! {

/// The bit pattern of the score 1.0.
pub const SCORE_ONE: u64 = 0x3FF0_0000_0000_0000;

/// The bit pattern of the score 0.5.
pub const SCORE_HALF: u64 = 0x3FE0_0000_0000_0000;

/// The upper-case form of a text.
pub uninterp spec fn upper_of(s: Seq<char>) -> Seq<char>;

/// The Jaro–Winkler similarity of two texts, as the bits of the `f64` result.
pub uninterp spec fn similarity_of(a: Seq<char>, b: Seq<char>) -> u64;

/// The percent-decoding of a text; `None` where the decoded bytes are not UTF-8.
pub uninterp spec fn percent_decoded(s: Seq<char>) -> Option<Seq<char>>;

/// Relies on `str::to_uppercase`: the result depends on the characters alone,
/// and the empty text stays empty.
#[verifier::external_body]
pub(crate) fn to_upper(s: &str) -> (r: String)
    ensures
        r@ == upper_of(s@),
        s@.len() == 0 ==> r@.len() == 0,
{
    s.to_uppercase()
}

/// Relies on `strsim::jaro_winkler`: the score lies between 0.0 and 1.0 (so
/// its bits are at most those of 1.0); that of two empty texts is 1.0, and
/// that of an empty and a non-empty text is 0.0.
#[verifier::external_body]
pub(crate) fn jaro_winkler_bits(a: &str, b: &str) -> (r: u64)
    ensures
        r == similarity_of(a@, b@),
        r <= SCORE_ONE,
        a@.len() == 0 && b@.len() == 0 ==> r == SCORE_ONE,
        (a@.len() == 0) != (b@.len() == 0) ==> r == 0,
{
    strsim::jaro_winkler(a, b).to_bits()
}

/// Relies on `urlencoding::decode`: a text without `%` is handed back as it is.
#[verifier::external_body]
pub(crate) fn url_decode(s: &str) -> (r: Option<String>)
    ensures
        r.is_some() == percent_decoded(s@).is_some(),
        r.is_some() ==> r.unwrap()@ == percent_decoded(s@).unwrap(),
        !s@.contains('%') ==> r.is_some() && r.unwrap()@ == s@,
{
    urlencoding::decode(s).ok().map(|c| c.into_owned())
}

/// `s` percent-decoded, or `s` itself where the decoding is not valid UTF-8.
pub fn decode_or_keep(s: &str) -> (r: String)
    ensures
        r@ == match percent_decoded(s@) {
            Some(d) => d,
            None => s@,
        },
{
    match url_decode(s) {
        Some(d) => d,
        None => String::from_str(s),
    }
}

} // verus!
