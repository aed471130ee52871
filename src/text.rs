//! Text measures that rely on Unicode segmentation and case mapping.

use unicode_segmentation::UnicodeSegmentation;
use vstd::prelude::*;

verus! {

/// The number of extended grapheme clusters in a text.
pub uninterp spec fn grapheme_count(s: Seq<char>) -> nat;

/// Relies on `UnicodeSegmentation::graphemes` (extended clusters) followed by
/// `Iterator::count`: every cluster holds at least one character, and an empty
/// text has none.
#[verifier::external_body]
fn count_graphemes(value: &str) -> (r: usize)
    ensures
        r as nat == grapheme_count(value@),
        r as nat <= value@.len(),
        (r == 0) == (value@.len() == 0),
{
    value.graphemes(true).count()
}

/// Length of a text as a reader sees it: its number of grapheme clusters.
pub fn str_len(value: &str) -> (r: usize)
    ensures
        r as nat == grapheme_count(value@),
        r as nat <= value@.len(),
        (r == 0) == (value@.len() == 0),
{
    count_graphemes(value)
}

/// The lower-case form of a text, as Unicode defines it.
pub uninterp spec fn lower_of(s: Seq<char>) -> Seq<char>;

/// Relies on `str::to_lowercase`: the result depends on the characters
/// alone.
#[verifier::external_body]
pub(crate) fn lowercase(s: &str) -> (r: String)
    ensures
        r@ == lower_of(s@),
{
    s.to_lowercase()
}

} // verus!
