//! Regular expressions, through the `regex` crate.
//!
//! The matching itself is the crate's work and is not restated here: each
//! operation has a name for its result, a function of the pattern and the
//! haystack. A pattern that the crate does not compile matches nothing.
use regex::Regex;
use vstd::prelude::*;

verus! {

/// Whether the regex built from `pattern` matches somewhere in `haystack`
/// (`Regex::is_match`); `false` where `pattern` does not compile.
pub uninterp spec fn regex_is_match(pattern: Seq<char>, haystack: Seq<char>) -> bool;

/// The groups of the leftmost-first match of `pattern` in `haystack`
/// (`Regex::captures`): entry `i` is the text of group `i`, `None` where
/// that group took no part. `None` where there is no match or `pattern`
/// does not compile.
pub uninterp spec fn regex_captures(pattern: Seq<char>, haystack: Seq<char>) -> Option<
    Seq<Option<Seq<char>>>,
>;

/// The groups of each of the successive non-overlapping matches of
/// `pattern` in `haystack` (`Regex::captures_iter`), in order; empty where
/// `pattern` does not compile.
pub uninterp spec fn regex_captures_all(pattern: Seq<char>, haystack: Seq<char>) -> Seq<
    Seq<Option<Seq<char>>>,
>;

/// `haystack` with every non-overlapping match of `pattern` replaced by
/// `replacement` (`Regex::replace_all`); `haystack` itself where `pattern`
/// does not compile.
pub uninterp spec fn regex_replace_all(
    pattern: Seq<char>,
    haystack: Seq<char>,
    replacement: Seq<char>,
) -> Seq<char>;

/// Every group that took part is a piece of the haystack, so it is no longer.
pub open spec fn groups_within(groups: Seq<Option<Seq<char>>>, haystack: Seq<char>) -> bool {
    forall|i: int|
        0 <= i < groups.len() && (#[trigger] groups[i]) is Some ==> groups[i]->0.len()
            <= haystack.len()
}

/// The text of group `i`, empty where the group took no part or does not exist.
pub open spec fn group_of(groups: Seq<Option<Seq<char>>>, i: int) -> Seq<char> {
    if 0 <= i < groups.len() {
        match groups[i] {
            Some(t) => t,
            None => Seq::empty(),
        }
    } else {
        Seq::empty()
    }
}

/// Calls `Regex::new` and `Regex::is_match`. Claims that the answer is the
/// named result for this pattern and haystack.
#[verifier::external_body]
pub(crate) fn is_match(pattern: &str, haystack: &str) -> (r: bool)
    ensures
        r == regex_is_match(pattern@, haystack@),
{
    match Regex::new(pattern) {
        Ok(re) => re.is_match(haystack),
        Err(_) => false,
    }
}

/// Calls `Regex::new` and `Regex::captures`, and copies the text of each
/// group. Claims that the groups are the named result, and, as the crate
/// documents of `Match::as_str`, that each group is a piece of the haystack.
#[verifier::external_body]
pub(crate) fn captures(pattern: &str, haystack: &str) -> (r: Option<Vec<Option<String>>>)
    ensures
        r.deep_view() == regex_captures(pattern@, haystack@),
        r matches Some(g) ==> groups_within(g.deep_view(), haystack@),
{
    match Regex::new(pattern) {
        Ok(re) => re.captures(haystack).map(
            |caps| caps.iter().map(|m| m.map(|m| m.as_str().to_string())).collect(),
        ),
        Err(_) => None,
    }
}

/// Calls `Regex::new` and `Regex::captures_iter`, and copies the text of each
/// group of each match. Claims that the result is the named one and that
/// each group is a piece of the haystack.
#[verifier::external_body]
pub(crate) fn captures_all(pattern: &str, haystack: &str) -> (r: Vec<Vec<Option<String>>>)
    ensures
        r.deep_view() == regex_captures_all(pattern@, haystack@),
        forall|k: int| 0 <= k < r.len() ==> groups_within(#[trigger] r@[k].deep_view(), haystack@),
{
    match Regex::new(pattern) {
        Ok(re) => re.captures_iter(haystack).map(
            |caps| caps.iter().map(|m| m.map(|m| m.as_str().to_string())).collect(),
        ).collect(),
        Err(_) => Vec::new(),
    }
}

/// Calls `Regex::new` and `Regex::replace_all`. Claims that the result is the
/// named one.
#[verifier::external_body]
pub(crate) fn replace_all(pattern: &str, haystack: &str, replacement: &str) -> (r: String)
    ensures
        r@ == regex_replace_all(pattern@, haystack@, replacement@),
{
    match Regex::new(pattern) {
        Ok(re) => re.replace_all(haystack, replacement).to_string(),
        Err(_) => haystack.to_string(),
    }
}

/// The text of group `i` of one match.
pub fn group(groups: &Vec<Option<String>>, i: usize) -> (r: String)
    ensures
        r@ == group_of(groups.deep_view(), i as int),
{
    if i < groups.len() {
        match &groups[i] {
            Some(t) => t.clone(),
            None => String::new(),
        }
    } else {
        String::new()
    }
}

} // verus!
