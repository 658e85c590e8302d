//! Regular expressions as the rest of the library sees them.
//!
//! Matching itself is done by the `regex` crate. Nothing about it is proved
//! here: the items of this file state what is taken on trust from that crate,
//! and every contract elsewhere that speaks of matching goes through them.

use vstd::prelude::*;

verus! {

/// A compiled regular expression of the `regex` crate, opaque to the verifier.
#[verifier::external_type_specification]
#[verifier::external_body]
pub struct ExRegex(regex::Regex);

/// The error with which the `regex` crate rejects a pattern.
#[verifier::external_type_specification]
#[verifier::external_body]
pub struct ExRegexError(regex::Error);

/// Whether `regex::Regex::new` accepts the pattern string.
pub uninterp spec fn regex_compiles(pattern: Seq<char>) -> bool;

/// The string that `regex::Regex::as_str` returns: the one the expression
/// was compiled from.
pub uninterp spec fn regex_source(regex: regex::Regex) -> Seq<char>;

/// Whether `regex::Regex::is_match` finds a match of the expression anywhere
/// in the text.
pub uninterp spec fn regex_accepts(regex: regex::Regex, text: Seq<char>) -> bool;

/// Calls `regex::Regex::new`. Trusted: the call succeeds exactly on the
/// patterns that `regex_compiles` names, and the expression it returns
/// reports the pattern it was given as its source.
#[verifier::external_body]
pub(crate) fn regex_new(pattern: &str) -> (r: Result<regex::Regex, regex::Error>)
    ensures
        r.is_ok() == regex_compiles(pattern@),
        r matches Ok(regex) ==> regex_source(regex) == pattern@,
{
    regex::Regex::new(pattern)
}

/// Calls `regex::Regex::as_str`. Trusted: the result is the source string
/// that `regex_source` names.
#[verifier::external_body]
pub(crate) fn regex_as_str(regex: &regex::Regex) -> (s: &str)
    ensures
        s@ == regex_source(*regex),
{
    regex.as_str()
}

/// Calls `regex::Regex::is_match`. Trusted: the result is what
/// `regex_accepts` names for this expression and this text.
#[verifier::external_body]
pub(crate) fn regex_is_match(regex: &regex::Regex, text: &str) -> (b: bool)
    ensures
        b == regex_accepts(*regex, text@),
{
    regex.is_match(text)
}

/// `Clone` of `regex::Regex`. Trusted: the copy has the source of the
/// expression it was made from and matches the same texts.
pub assume_specification[ <regex::Regex as Clone>::clone ](regex: &regex::Regex) -> (res:
    regex::Regex)
    ensures
        regex_source(res) == regex_source(*regex),
        forall|text: Seq<char>| #[trigger] regex_accepts(res, text) == regex_accepts(*regex, text),
;

} // verus!
