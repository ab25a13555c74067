//! Regular expressions and letter case, as the crate `regex` and the
//! standard library compute them.

use vstd::prelude::*;

verus! {

/// Whether the regular expression `pattern` matches somewhere in `text`,
/// as the crate `regex` says; `None` where it does not accept the pattern.
pub uninterp spec fn regex_matches(pattern: Seq<char>, text: Seq<char>) -> Option<bool>;

/// `text` with each match of the regular expression `pattern` replaced by
/// the expansion of `replacement`, as the crate `regex` computes it; `None`
/// where it does not accept the pattern.
pub uninterp spec fn regex_replaced(
    pattern: Seq<char>,
    text: Seq<char>,
    replacement: Seq<char>,
) -> Option<Seq<char>>;

/// The lowercase form of a text, as the standard library computes it.
pub uninterp spec fn lowercased(text: Seq<char>) -> Seq<char>;

/// Whether a regular expression matches somewhere in a text.
///
/// Trusted: `Regex::new` and `Regex::is_match` of the crate `regex`. The
/// contract claims only that the outcome is a function of the pattern and
/// the text.
#[verifier::external_body]
pub(crate) fn regex_is_match(pattern: &str, text: &str) -> (r: Option<bool>)
    ensures
        r == regex_matches(pattern@, text@),
{
    match regex::Regex::new(pattern) {
        Ok(re) => Some(re.is_match(text)),
        Err(_) => None,
    }
}

/// Replaces each match of a regular expression in a text.
///
/// Trusted: `Regex::new` and `Regex::replace_all` of the crate `regex`. The
/// contract claims only that the outcome is a function of the pattern, the
/// text and the replacement.
#[verifier::external_body]
pub(crate) fn regex_replace_all(pattern: &str, text: &str, replacement: &str) -> (r: Option<String>)
    ensures
        match r {
            Some(s) => regex_replaced(pattern@, text@, replacement@) == Some(s@),
            None => regex_replaced(pattern@, text@, replacement@) is None,
        },
{
    match regex::Regex::new(pattern) {
        Ok(re) => Some(re.replace_all(text, replacement).into_owned()),
        Err(_) => None,
    }
}

/// The lowercase form of a text.
///
/// Trusted: `str::to_lowercase` of the standard library. The contract
/// claims only that the outcome is a function of the text.
#[verifier::external_body]
pub(crate) fn to_lowercase(text: &str) -> (r: String)
    ensures
        r@ == lowercased(text@),
{
    text.to_lowercase()
}

} // verus!
