//! Matching text against a regular expression.

use vstd::prelude::*;

verus! {

/// The error with which `regex::Regex::new` refuses a pattern. Nothing is
/// said of what it holds.
#[verifier::external_type_specification]
#[verifier::external_body]
pub struct ExRegexError(regex::Error);

/// Whether `pattern` is a regular expression that `regex::Regex::new`
/// compiles.
pub uninterp spec fn regex_compiles(pattern: Seq<char>) -> bool;

/// What the compiled regular expression `pattern` finds in `text`, as
/// `regex::Regex::captures` reports it.
///
/// `None`: the pattern matches nowhere in `text`. `Some(groups)`: the
/// capture groups of its leftmost match, the whole match first and then one
/// entry for each group of the pattern in the order of their opening
/// brackets, `None` for a group that took no part in the match.
pub uninterp spec fn regex_captures(pattern: Seq<char>, text: Seq<char>) -> Option<Seq<Option<Seq<char>>>>;

/// Compiles `pattern` with `regex::Regex::new`, searches `text` with
/// `Regex::captures` and copies out the text of every group that
/// `Captures::iter` yields.
///
/// The contract only gives the two outcomes their names: the compiler
/// accepts exactly the patterns for which `regex_compiles` holds, and what
/// the search returns for such a pattern is what `regex_captures` holds.
#[verifier::external_body]
pub(crate) fn captures(pattern: &str, text: &str) -> (found: Result<
    Option<Vec<Option<String>>>,
    regex::Error,
>)
    ensures
        match found {
            Ok(groups) => regex_compiles(pattern@) && regex_captures(pattern@, text@) == groups.deep_view(),
            Err(_) => !regex_compiles(pattern@),
        },
{
    let compiled = match regex::Regex::new(pattern) {
        Ok(compiled) => compiled,
        Err(refusal) => return Err(refusal),
    };
    let Some(matched) = compiled.captures(text) else { return Ok(None) };
    let mut groups = Vec::new();
    for group in matched.iter() {
        groups.push(match group {
            Some(part) => Some(part.as_str().to_string()),
            None => None,
        });
    }
    Ok(Some(groups))
}

} // verus!
