//! Grapheme clusters and word boundaries, as the crate
//! `unicode-segmentation` finds them.

use vstd::prelude::*;
use crate::text::texts;

verus! {

/// The extended grapheme clusters of a text, in order.
pub uninterp spec fn grapheme_clusters(s: Seq<char>) -> Seq<Seq<char>>;

/// The pieces into which the word boundaries of a text cut it, in order.
pub uninterp spec fn word_pieces(s: Seq<char>) -> Seq<Seq<char>>;

/// `UnicodeSegmentation::graphemes` with `is_extended` set: the extended
/// grapheme clusters of `s`, each copied into a string of its own. They are a
/// function of the text alone, named `grapheme_clusters`.
#[verifier::external_body]
pub(crate) fn graphemes(s: &str) -> (r: Vec<String>)
    ensures
        texts(r@) == grapheme_clusters(s@),
{
    unicode_segmentation::UnicodeSegmentation::graphemes(s, true).map(|g| g.to_string()).collect()
}

/// `UnicodeSegmentation::split_word_bounds`: the pieces of `s` between its
/// word boundaries, each copied into a string of its own. They are a function
/// of the text alone, named `word_pieces`.
#[verifier::external_body]
pub(crate) fn word_bounds(s: &str) -> (r: Vec<String>)
    ensures
        texts(r@) == word_pieces(s@),
{
    unicode_segmentation::UnicodeSegmentation::split_word_bounds(s).map(|w| w.to_string()).collect()
}

} // verus!
