//! Regular expressions, as the `regex` crate matches them.
//!
//! Nothing here is proved: each function below calls the engine, and its
//! contract gives the engine's answer a name.

use crate::text::option_text;
use vstd::prelude::*;

verus! {

/// Whether `regex::Regex::new` accepts `pattern`.
pub uninterp spec fn regex_compiles(pattern: Seq<char>) -> bool;

/// The text of capture group 1 in the leftmost match of `pattern` in `text`,
/// as `Regex::captures` finds it; `None` where nothing matches or the group
/// took no part in the match.
pub uninterp spec fn regex_first_group(pattern: Seq<char>, text: Seq<char>) -> Option<Seq<char>>;

/// Whether `pattern` matches anywhere in `text`, as `Regex::is_match` decides it.
pub uninterp spec fn regex_matches(pattern: Seq<char>, text: Seq<char>) -> bool;

/// `text` with the leftmost match of `pattern` replaced by `with`, as
/// `Regex::replace` does it; `text` itself where nothing matches.
pub uninterp spec fn regex_replaced(pattern: Seq<char>, text: Seq<char>, with: Seq<char>) -> Seq<
    char,
>;

/// Compiles `pattern` with `regex::Regex::new` and asks `Regex::captures` for
/// the leftmost match in `text`, then `Captures::get(1)` for its first group.
/// Claimed: the call fails exactly on the patterns the engine rejects, and
/// otherwise hands back what the engine captured.
#[verifier::external_body]
pub(crate) fn first_group(pattern: &str, text: &str) -> (r: Result<Option<String>, regex::Error>)
    ensures
        r is Ok <==> regex_compiles(pattern@),
        r matches Ok(found) ==> option_text(found) == regex_first_group(pattern@, text@),
{
    let re = regex::Regex::new(pattern)?;
    match re.captures(text) {
        Some(groups) => match groups.get(1) {
            Some(m) => Ok(Some(m.as_str().to_string())),
            None => Ok(None),
        },
        None => Ok(None),
    }
}

/// Compiles `pattern` with `regex::Regex::new` and asks `Regex::is_match`
/// whether it matches in `text`. Claimed: the call fails exactly on the
/// patterns the engine rejects, and otherwise hands back the engine's answer.
#[verifier::external_body]
pub(crate) fn is_match(pattern: &str, text: &str) -> (r: Result<bool, regex::Error>)
    ensures
        r is Ok <==> regex_compiles(pattern@),
        r matches Ok(found) ==> found == regex_matches(pattern@, text@),
{
    let re = regex::Regex::new(pattern)?;
    Ok(re.is_match(text))
}

/// Compiles `pattern` with `regex::Regex::new` and has `Regex::replace` put
/// `with` in place of the leftmost match in `text`. Claimed: the call fails
/// exactly on the patterns the engine rejects, and otherwise hands back the
/// engine's text.
#[verifier::external_body]
pub(crate) fn replaced(pattern: &str, text: &str, with: &str) -> (r: Result<String, regex::Error>)
    ensures
        r is Ok <==> regex_compiles(pattern@),
        r matches Ok(out) ==> out@ == regex_replaced(pattern@, text@, with@),
{
    let re = regex::Regex::new(pattern)?;
    Ok(re.replace(text, with).into_owned())
}

} // verus!
