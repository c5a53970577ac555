//! Letter case, as std's Unicode tables have it.
//!
//! Nothing here is proved: each function hands the question to std, and each
//! answer has a name under which the contracts of the library speak of it.

use vstd::prelude::*;

verus! {

/// What `str::to_lowercase` makes of a text.
pub uninterp spec fn lowercase_of(s: Seq<char>) -> Seq<char>;

/// What `str::to_uppercase` makes of a text.
pub uninterp spec fn uppercase_of(s: Seq<char>) -> Seq<char>;

/// What `char::is_uppercase` says of a character.
pub uninterp spec fn char_is_uppercase(c: char) -> bool;

/// What `char::is_lowercase` says of a character.
pub uninterp spec fn char_is_lowercase(c: char) -> bool;

/// The characters that `char::to_uppercase` gives for a character.
pub uninterp spec fn char_uppercase(c: char) -> Seq<char>;

/// The characters that `char::to_lowercase` gives for a character.
pub uninterp spec fn char_lowercase(c: char) -> Seq<char>;

/// `str::to_lowercase` of std: the text in lower case. The result is a
/// function of the text alone, named `lowercase_of`.
#[verifier::external_body]
pub(crate) fn to_lowercase(s: &str) -> (r: String)
    ensures
        r@ == lowercase_of(s@),
{
    s.to_lowercase()
}

/// `str::to_uppercase` of std: the text in upper case. The result is a
/// function of the text alone, named `uppercase_of`.
#[verifier::external_body]
pub(crate) fn to_uppercase(s: &str) -> (r: String)
    ensures
        r@ == uppercase_of(s@),
{
    s.to_uppercase()
}

/// `char::is_uppercase` of std: whether the character has the Unicode
/// property Uppercase. The answer is named `char_is_uppercase`.
#[verifier::external_body]
pub(crate) fn is_uppercase(c: char) -> (r: bool)
    ensures
        r == char_is_uppercase(c),
{
    c.is_uppercase()
}

/// `char::is_lowercase` of std: whether the character has the Unicode
/// property Lowercase. The answer is named `char_is_lowercase`.
#[verifier::external_body]
pub(crate) fn is_lowercase(c: char) -> (r: bool)
    ensures
        r == char_is_lowercase(c),
{
    c.is_lowercase()
}

/// `char::to_uppercase` of std: the one to three characters that are the
/// upper case of `c`, collected into a string. They are named
/// `char_uppercase`.
#[verifier::external_body]
pub(crate) fn upper_of_char(c: char) -> (r: String)
    ensures
        r@ == char_uppercase(c),
{
    c.to_uppercase().collect()
}

/// `char::to_lowercase` of std: the one to three characters that are the
/// lower case of `c`, collected into a string. They are named
/// `char_lowercase`.
#[verifier::external_body]
pub(crate) fn lower_of_char(c: char) -> (r: String)
    ensures
        r@ == char_lowercase(c),
{
    c.to_lowercase().collect()
}

} // verus!
