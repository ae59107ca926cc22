//! Chooses, for a text meant for a QR code, the mode segments that encode it
//! in the fewest bits, and canonicalizes URLs and email addresses beforehand
//! so that more of their text fits the denser alphanumeric mode.
pub mod canonical;
pub mod capacity;
pub mod kanji;
pub mod models;
pub mod optimizer;
pub mod segment;

use canonical::{canonical_email, canonical_url, email_text, url_text};
use models::{Email, UrlParts};
use optimizer::{make_segments_optimally, search_from};
use segment::{segs_view, SegSpec, Segment};
use vstd::prelude::*;
use vstd::string::StrSliceExecFns;

verus! {

/// Error correction level of a QR code symbol, from the weakest to the strongest.
#[derive(Clone, Copy, Debug, PartialEq, Eq, Structural)]
pub enum EccLevel {
    Low,
    Medium,
    Quartile,
    High,
}

/// Why no segments were produced.
#[derive(Clone, Copy, Debug, PartialEq, Eq, Structural)]
pub enum QrCodeError {
    /// No version from 1 to 40 holds the text at the requested level.
    DataTooLong,
}

/// Smallest QR code version.
pub const VERSION_MIN: u8 = 1;

/// Largest QR code version.
pub const VERSION_MAX: u8 = 40;

/// The segments chosen for `text` at level `ecl` over all versions.
pub open spec fn optimized(text: Seq<char>, ecl: EccLevel) -> Option<Seq<SegSpec>> {
    search_from(text, ecl, 1, 40)
}

/// `r` is what the optimizer owes for `text` at level `ecl`.
pub open spec fn answers(r: Result<Vec<Segment>, QrCodeError>, text: Seq<char>, ecl: EccLevel) -> bool {
    match r {
        Ok(segs) => optimized(text, ecl) == Some(segs_view(segs@)),
        Err(e) => e == QrCodeError::DataTooLong && optimized(text, ecl) is None,
    }
}

/// The characters of `s` in order.
fn chars_of(s: &str) -> (r: Vec<char>)
    ensures
        r@ == s@,
{
    let n = s.unicode_len();
    let mut r: Vec<char> = Vec::new();
    let mut i: usize = 0;
    while i < n
        invariant
            i <= n,
            n == s@.len(),
            r@ == s@.subrange(0, i as int),
        decreases n - i,
    {
        r.push(s.get_char(i));
        i += 1;
        assert(r@ =~= s@.subrange(0, i as int));
    }
    assert(r@ =~= s@);
    r
}

/// Makes segments from a string slice optimally.
pub fn make_segments_from_str(text: &str, ecl: EccLevel) -> (r: Result<Vec<Segment>, QrCodeError>)
    ensures
        answers(r, text@, ecl),
{
    let chars = chars_of(text);
    match make_segments_optimally(chars.as_slice(), ecl, VERSION_MIN, VERSION_MAX) {
        Some(segs) => Ok(segs),
        None => Err(QrCodeError::DataTooLong),
    }
}

/// Makes segments from a URL optimally, after putting its scheme and a
/// domain host in uppercase.
pub fn make_segments_from_url(url: &UrlParts, ecl: EccLevel) -> (r: Result<Vec<Segment>, QrCodeError>)
    ensures
        answers(r, url_text(*url), ecl),
{
    let text = canonical_url(url);
    make_segments_from_str(text.as_str(), ecl)
}

/// Makes segments from an email address optimally, after putting a domain
/// name in uppercase.
pub fn make_segments_from_email(email: &Email, ecl: EccLevel) -> (r: Result<Vec<Segment>, QrCodeError>)
    ensures
        answers(r, email_text(*email), ecl),
{
    let text = canonical_email(email);
    make_segments_from_str(text.as_str(), ecl)
}

} // verus!
