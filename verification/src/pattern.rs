//! Trusted interface to the regex engine.
//!
//! A compiled `regex::Regex` is opaque to the verifier; `regex_pattern`
//! names the pattern it was built from, and `regex_match` names the
//! substring-match relation the engine decides.
use vstd::prelude::*;

verus! {

#[verifier::external_type_specification]
#[verifier::external_body]
pub struct ExRegex(regex::Regex);

/// The pattern a compiled regex was built from.
pub uninterp spec fn regex_pattern(re: regex::Regex) -> Seq<char>;

/// Whether the pattern matches somewhere in the text (a partial match, not
/// an anchored one).
pub uninterp spec fn regex_match(pattern: Seq<char>, text: Seq<char>) -> bool;

/// Relies on regex::Regex's derived Clone: the clone holds the same compiled
/// pattern.
pub assume_specification[ <regex::Regex as Clone>::clone ](re: &regex::Regex) -> (r: regex::Regex)
    ensures
        regex_pattern(r) == regex_pattern(*re),
;

/// Relies on regex::Regex::is_match: true if and only if there is a match
/// for the compiled pattern anywhere in the haystack.
#[verifier::external_body]
pub fn regex_is_match(re: &regex::Regex, text: &str) -> (r: bool)
    ensures
        r == regex_match(regex_pattern(*re), text@),
{
    re.is_match(text)
}

} // verus!
