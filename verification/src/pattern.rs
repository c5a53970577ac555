//! Regular expressions, as the crate `regex` reads and applies them.

use vstd::prelude::*;

verus! {

/// `Regex::new` accepts the pattern.
pub uninterp spec fn regex_compiles(pattern: Seq<char>) -> bool;

/// What `Regex::replace_all` makes of `text`, for the regular expression
/// compiled from `pattern` and the replacement `template`.
pub uninterp spec fn regex_replaced(
    pattern: Seq<char>,
    text: Seq<char>,
    template: Seq<char>,
) -> Seq<char>;

/// `Regex::new`, then `Regex::replace_all` on what it compiled: every match
/// of `pattern` in `text` replaced by `template`, in which `$name` and `$1`
/// stand for capture groups. `None` where `Regex::new` refuses the pattern,
/// which depends on the pattern alone.
#[verifier::external_body]
pub(crate) fn replace_matches(pattern: &str, text: &str, template: &str) -> (r: Option<String>)
    ensures
        r is Some <==> regex_compiles(pattern@),
        r is Some ==> r.unwrap()@ == regex_replaced(pattern@, text@, template@),
{
    match regex::Regex::new(pattern) {
        Ok(re) => Some(re.replace_all(text, template).into_owned()),
        Err(_) => None,
    }
}

/// Tells whether the pattern is one that can be applied.
pub fn pattern_compiles(pattern: &str) -> (ok: bool)
    ensures
        ok == regex_compiles(pattern@),
{
    replace_matches(pattern, "", "").is_some()
}

} // verus!
