use regex::Regex;
use vstd::prelude::*;

verus! {

/// The pattern is a regular expression that compiles within the default
/// size limit
pub uninterp spec fn regex_compiles(pattern: Seq<char>) -> bool;

/// The regular expression `pattern` matches somewhere in `text`
pub uninterp spec fn regex_finds(pattern: Seq<char>, text: Seq<char>) -> bool;

/// Relies on regex's `Regex::new`: it fails exactly on a pattern that is
/// invalid or would exceed the default size limit
#[verifier::external_body]
pub(crate) fn regex_is_valid(pattern: &str) -> (r: bool)
    ensures
        r == regex_compiles(pattern@),
{
    Regex::new(pattern).is_ok()
}

/// Relies on regex's `Regex::new` to compile the pattern and on
/// `Regex::is_match`, which is true if and only if the expression matches
/// somewhere in the text
#[verifier::external_body]
pub(crate) fn regex_is_match(pattern: &str, text: &str) -> (r: bool)
    requires
        regex_compiles(pattern@),
    ensures
        r == regex_finds(pattern@, text@),
{
    match Regex::new(pattern) {
        Ok(re) => re.is_match(text),
        Err(_) => false,
    }
}

} // verus!
