//! Display width of text in terminal columns, as the `unicode-width` crate
//! computes it.

use unicode_width::UnicodeWidthStr;
use vstd::prelude::*;

verus! {

/// The number of terminal columns that `UnicodeWidthStr::width` gives for
/// a string with the characters `s`.
///
/// This width is not the sum of the widths of the characters: emoji
/// sequences, `"\r\n"` and some script ligatures count differently.
pub uninterp spec fn text_width(s: Seq<char>) -> usize;

/// `UnicodeWidthStr::width` (unicode-width): the displayed width of `s`.
///
/// Claimed: the result is [`text_width`] of the characters of `s`, and a
/// string of one character is at most 3 columns wide (the crate's tables
/// hold widths 0 to 2, and 3 for U+17D8, and a single character is never
/// part of a sequence).
#[verifier::external_body]
pub(crate) fn str_width(s: &str) -> (w: usize)
    ensures
        w == text_width(s@),
        s@.len() == 1 ==> w <= 3,
{
    s.width()
}

} // verus!
