//! Regular expressions, evaluated by the `regex` crate.
//!
//! What an expression matches is not restated here: each result has a name,
//! and the contracts of this library speak of those names.

use vstd::prelude::*;

verus! {

/// Whether `regex::Regex::new` accepts `pattern`.
pub uninterp spec fn regex_compiles(pattern: Seq<char>) -> bool;

/// Whether the expression `pattern` has a match anywhere in `text`; `None`
/// when `pattern` is not a valid expression.
pub uninterp spec fn regex_is_match(pattern: Seq<char>, text: Seq<char>) -> Option<bool>;

/// The capture groups of the leftmost match of `pattern` in `text`, group 0
/// (the whole match) first, each group as the text it matched or `None`
/// where it took no part in the match. `None` when there is no match or
/// `pattern` is not a valid expression.
pub uninterp spec fn regex_captures(pattern: Seq<char>, text: Seq<char>) -> Option<
    Seq<Option<Seq<char>>>,
>;

/// `text` with every non-overlapping match of `pattern` replaced by the
/// expansion of `replacement`; `None` when `pattern` is not a valid
/// expression.
pub uninterp spec fn regex_replace_all(
    pattern: Seq<char>,
    text: Seq<char>,
    replacement: Seq<char>,
) -> Option<Seq<char>>;

/// `regex::Regex::new`, asked only whether it succeeds. The contract names
/// the answer and claims no more: the same pattern gives the same answer.
#[verifier::external_body]
pub(crate) fn compiles(pattern: &str) -> (ok: bool)
    ensures
        ok == regex_compiles(pattern@),
{
    regex::Regex::new(pattern).is_ok()
}

/// `regex::Regex::is_match` of the expression that `regex::Regex::new`
/// makes of `pattern`; `None` where it makes none. The contract names the
/// result and claims no more.
#[verifier::external_body]
pub(crate) fn is_match(pattern: &str, text: &str) -> (found: Option<bool>)
    ensures
        found == regex_is_match(pattern@, text@),
{
    regex::Regex::new(pattern).ok().map(|re| re.is_match(text))
}

/// `regex::Regex::captures` of the expression that `regex::Regex::new` makes
/// of `pattern`, the groups copied out in order; `None` where there is no
/// expression or no match. The contract names the result and claims no
/// more.
#[verifier::external_body]
pub(crate) fn captures(pattern: &str, text: &str) -> (groups: Option<Vec<Option<String>>>)
    ensures
        groups.deep_view() == regex_captures(pattern@, text@),
{
    let re = regex::Regex::new(pattern).ok()?;
    let caps = re.captures(text)?;
    Some(caps.iter().map(|m| m.map(|m| m.as_str().to_string())).collect())
}

/// `regex::Regex::replace_all` of the expression that `regex::Regex::new`
/// makes of `pattern`; `None` where it makes none. The contract names the
/// result and claims no more.
#[verifier::external_body]
pub(crate) fn replace_all(pattern: &str, text: &str, replacement: &str) -> (out: Option<String>)
    ensures
        out.deep_view() == regex_replace_all(pattern@, text@, replacement@),
{
    regex::Regex::new(pattern).ok().map(|re| re.replace_all(text, replacement).into_owned())
}

/// Whether the expression `pattern` is valid and has a match in `text`.
pub open spec fn fits(pattern: Seq<char>, text: Seq<char>) -> bool {
    regex_is_match(pattern, text) == Some(true)
}

/// Whether the expression `pattern` is valid and has a match in `line`.
pub fn line_fits(pattern: &str, line: &str) -> (b: bool)
    ensures
        b == fits(pattern@, line@),
{
    match is_match(pattern, line) {
        Some(found) => found,
        None => false,
    }
}

/// Whether the expression `pattern` is valid and has a match in `text`.
pub fn text_fits(pattern: &str, text: &[char]) -> (b: bool)
    ensures
        b == fits(pattern@, text@),
{
    let owned = crate::text::from_chars(text);
    line_fits(pattern, owned.as_str())
}

} // verus!
