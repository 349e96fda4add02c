//! Regular expressions.

use crate::text::text_opt;
use vstd::prelude::*;

verus! {

/// Whether a text is a regular expression.
pub uninterp spec fn pattern_valid(pattern: Seq<char>) -> bool;

/// `regex::Regex::new`: whether it accepts the pattern depends on the pattern alone.
#[verifier::external_body]
pub(crate) fn is_pattern(pattern: &str) -> (r: bool)
    ensures
        r == pattern_valid(pattern@),
{
    regex::Regex::new(pattern).is_ok()
}

/// Whether a text has a match of a pattern.
pub uninterp spec fn pattern_matches(pattern: Seq<char>, text: Seq<char>) -> bool;

/// `regex::Regex::is_match` of the pattern that `regex::Regex::new` accepts: whether there is a
/// match depends on the two texts alone.
#[verifier::external_body]
pub(crate) fn is_match(pattern: &str, text: &str) -> (r: Option<bool>)
    ensures
        (r is Some) == pattern_valid(pattern@),
        r matches Some(b) ==> b == pattern_matches(pattern@, text@),
{
    regex::Regex::new(pattern).ok().map(|re| re.is_match(text))
}

/// The matches of a pattern in a text, from the left and not overlapping, each with the text of
/// each of its groups, the whole match first.
pub uninterp spec fn pattern_captures(pattern: Seq<char>, text: Seq<char>) -> Seq<
    Seq<Option<Seq<char>>>,
>;

/// The texts of the groups of one match.
pub open spec fn groups(v: Seq<Option<String>>) -> Seq<Option<Seq<char>>> {
    Seq::new(v.len(), |i: int| text_opt(v[i]))
}

/// The texts of the groups of some matches.
pub open spec fn captures_model(v: Seq<Vec<Option<String>>>) -> Seq<Seq<Option<Seq<char>>>> {
    Seq::new(v.len(), |i: int| groups(v[i]@))
}

/// `regex::Regex::captures_iter` of the pattern that `regex::Regex::new` accepts: the matches and
/// their groups depend on the two texts alone.
#[verifier::external_body]
pub(crate) fn captures(pattern: &str, text: &str) -> (r: Option<Vec<Vec<Option<String>>>>)
    ensures
        (r is Some) == pattern_valid(pattern@),
        r matches Some(v) ==> captures_model(v@) == pattern_captures(pattern@, text@),
{
    let re = regex::Regex::new(pattern).ok()?;
    Some(
        re.captures_iter(text)
            .map(|c| c.iter().map(|m| m.map(|m| m.as_str().to_string())).collect())
            .collect(),
    )
}

/// A text with the first match of a pattern replaced.
pub uninterp spec fn pattern_replaced(
    pattern: Seq<char>,
    text: Seq<char>,
    by: Seq<char>,
) -> Seq<char>;

/// `regex::Regex::replace` of the pattern that `regex::Regex::new` accepts: the result depends on
/// the three texts alone.
#[verifier::external_body]
pub(crate) fn replace_first(pattern: &str, text: &str, by: &str) -> (r: Option<String>)
    ensures
        (r is Some) == pattern_valid(pattern@),
        r matches Some(s) ==> s@ == pattern_replaced(pattern@, text@, by@),
{
    regex::Regex::new(pattern).ok().map(|re| re.replace(text, by).into_owned())
}

} // verus!
