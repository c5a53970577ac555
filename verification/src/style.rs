//! Typing styles: transforms of a whole text that change case or order.

use vstd::prelude::*;
use crate::casing::{
    char_is_lowercase, char_is_uppercase, char_lowercase, char_uppercase, is_lowercase,
    is_uppercase, lower_of_char, lowercase_of, to_lowercase, to_uppercase, upper_of_char,
    uppercase_of,
};
use crate::segment::{grapheme_clusters, graphemes, word_bounds, word_pieces};
use crate::text::{chars_of, concat, texts};
use vstd::string::StringExecFns;

verus! {

/// A typing style.
#[derive(Clone, Copy, Debug, PartialEq, Eq)]
pub enum Style {
    /// The whole text in lower case.
    Lowercase,
    /// The whole text in upper case.
    Uppercase,
    /// Grapheme clusters in upper and lower case by turns, the first in upper case.
    Alternating,
    /// The first character of each word, space or sign in upper case.
    Camelcase,
    /// The grapheme clusters in reverse order.
    Reverse,
    /// Upper case for lower case and lower for upper.
    Inverted,
}

/// `s` with its first character in upper case.
pub open spec fn capitalized(s: Seq<char>) -> Seq<char> {
    if s.len() == 0 {
        s
    } else {
        char_uppercase(s[0]) + s.skip(1)
    }
}

/// A character with its case swapped: lower case for an upper-case
/// character, upper case for a lower-case one, the character itself for any
/// other.
pub open spec fn inverted_char(c: char) -> Seq<char> {
    if char_is_uppercase(c) {
        char_lowercase(c)
    } else if char_is_lowercase(c) {
        char_uppercase(c)
    } else {
        seq![c]
    }
}

/// `s` with the case of every character swapped.
pub open spec fn inverted(s: Seq<char>) -> Seq<char>
    decreases s.len(),
{
    if s.len() == 0 {
        Seq::<char>::empty()
    } else {
        inverted(s.drop_last()) + inverted_char(s.last())
    }
}

/// The clusters put together, those at even places in upper case and those at
/// odd places in lower case. Places count from 0.
pub open spec fn alternated(clusters: Seq<Seq<char>>) -> Seq<char>
    decreases clusters.len(),
{
    if clusters.len() == 0 {
        Seq::<char>::empty()
    } else if (clusters.len() - 1) % 2 == 0 {
        alternated(clusters.drop_last()) + uppercase_of(clusters.last())
    } else {
        alternated(clusters.drop_last()) + lowercase_of(clusters.last())
    }
}

/// The pieces put together, each with its first character in upper case.
pub open spec fn capitalized_all(pieces: Seq<Seq<char>>) -> Seq<char>
    decreases pieces.len(),
{
    if pieces.len() == 0 {
        Seq::<char>::empty()
    } else {
        capitalized_all(pieces.drop_last()) + capitalized(pieces.last())
    }
}

/// What a style makes of a text.
pub open spec fn styled(style: Style, s: Seq<char>) -> Seq<char> {
    match style {
        Style::Lowercase => lowercase_of(s),
        Style::Uppercase => uppercase_of(s),
        Style::Alternating => alternated(grapheme_clusters(s)),
        Style::Camelcase => capitalized_all(word_pieces(s)),
        Style::Reverse => concat(grapheme_clusters(s).reverse()),
        Style::Inverted => inverted(s),
    }
}

/// Puts the first character of `s` in upper case and leaves the rest as it is.
pub fn capitalize(s: &str) -> (r: String)
    ensures
        r@ == capitalized(s@),
{
    let chars = chars_of(s);
    if chars.len() == 0 {
        return String::new();
    }
    let mut r = upper_of_char(chars[0]);
    let mut i: usize = 1;
    while i < chars.len()
        invariant
            1 <= i <= chars.len(),
            chars@ == s@,
            r@ == char_uppercase(s@[0]) + s@.subrange(1, i as int),
        decreases chars.len() - i,
    {
        let ghost before = r@;
        crate::text::push_char(&mut r, chars[i]);
        proof {
            assert(s@.subrange(1, i + 1) =~= s@.subrange(1, i as int).push(s@[i as int]));
            assert(r@ =~= char_uppercase(s@[0]) + s@.subrange(1, i + 1));
        }
        i = i + 1;
    }
    proof {
        assert(s@.subrange(1, s@.len() as int) =~= s@.skip(1));
    }
    r
}

/// Swaps the case of every character of `s`: upper case becomes lower case
/// and lower case upper case. Characters without case stay.
pub fn invert_capitalization(s: &str) -> (r: String)
    ensures
        r@ == inverted(s@),
{
    let chars = chars_of(s);
    let mut r = String::new();
    let mut i: usize = 0;
    while i < chars.len()
        invariant
            i <= chars.len(),
            chars@ == s@,
            r@ == inverted(s@.take(i as int)),
        decreases chars.len() - i,
    {
        proof {
            assert(s@.take(i + 1).drop_last() =~= s@.take(i as int));
        }
        let c = chars[i];
        if is_uppercase(c) {
            let lower = lower_of_char(c);
            r.append(lower.as_str());
        } else if is_lowercase(c) {
            let upper = upper_of_char(c);
            r.append(upper.as_str());
        } else {
            let ghost before = r@;
            crate::text::push_char(&mut r, c);
            proof {
                assert(r@ =~= before + seq![c]);
            }
        }
        i = i + 1;
    }
    proof {
        assert(s@.take(s@.len() as int) =~= s@);
    }
    r
}

/// The clusters in upper and lower case by turns.
fn alternate(clusters: &Vec<String>) -> (r: String)
    ensures
        r@ == alternated(texts(clusters@)),
{
    let mut r = String::new();
    let mut i: usize = 0;
    while i < clusters.len()
        invariant
            i <= clusters.len(),
            r@ == alternated(texts(clusters@).take(i as int)),
        decreases clusters.len() - i,
    {
        proof {
            assert(texts(clusters@).take(i + 1).drop_last() =~= texts(clusters@).take(i as int));
            assert(texts(clusters@).take(i + 1).last() == clusters@[i as int]@);
        }
        if i % 2 == 0 {
            let upper = to_uppercase(clusters[i].as_str());
            r.append(upper.as_str());
        } else {
            let lower = to_lowercase(clusters[i].as_str());
            r.append(lower.as_str());
        }
        i = i + 1;
    }
    proof {
        assert(texts(clusters@).take(clusters@.len() as int) =~= texts(clusters@));
    }
    r
}

/// The pieces, each with its first character in upper case.
fn capitalize_all(pieces: &Vec<String>) -> (r: String)
    ensures
        r@ == capitalized_all(texts(pieces@)),
{
    let mut r = String::new();
    let mut i: usize = 0;
    while i < pieces.len()
        invariant
            i <= pieces.len(),
            r@ == capitalized_all(texts(pieces@).take(i as int)),
        decreases pieces.len() - i,
    {
        proof {
            assert(texts(pieces@).take(i + 1).drop_last() =~= texts(pieces@).take(i as int));
            assert(texts(pieces@).take(i + 1).last() == pieces@[i as int]@);
        }
        let word = capitalize(pieces[i].as_str());
        r.append(word.as_str());
        i = i + 1;
    }
    proof {
        assert(texts(pieces@).take(pieces@.len() as int) =~= texts(pieces@));
    }
    r
}

/// The clusters from the last to the first.
fn reverse(clusters: &Vec<String>) -> (r: String)
    ensures
        r@ == concat(texts(clusters@).reverse()),
{
    let mut r = String::new();
    let n = clusters.len();
    let ghost backwards = texts(clusters@).reverse();
    let mut i: usize = 0;
    while i < n
        invariant
            i <= n,
            n == clusters.len(),
            backwards == texts(clusters@).reverse(),
            r@ == concat(backwards.take(i as int)),
        decreases n - i,
    {
        proof {
            assert(backwards.take(i + 1).drop_last() =~= backwards.take(i as int));
            assert(backwards.take(i + 1).last() == clusters@[n - 1 - i]@);
        }
        r.append(clusters[n - 1 - i].as_str());
        i = i + 1;
    }
    proof {
        assert(backwards.take(n as int) =~= backwards);
    }
    r
}

/// Applies a style to a text.
pub fn apply_style(style: Style, s: &str) -> (r: String)
    ensures
        r@ == styled(style, s@),
{
    match style {
        Style::Lowercase => to_lowercase(s),
        Style::Uppercase => to_uppercase(s),
        Style::Alternating => {
            let clusters = graphemes(s);
            alternate(&clusters)
        },
        Style::Camelcase => {
            let pieces = word_bounds(s);
            capitalize_all(&pieces)
        },
        Style::Reverse => {
            let clusters = graphemes(s);
            reverse(&clusters)
        },
        Style::Inverted => invert_capitalization(s),
    }
}

} // verus!
