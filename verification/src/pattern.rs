//! Regular expressions: the two calls that the row rules make, and what is
//! believed of them.

use regex::Regex;
use vstd::prelude::*;

verus! {

/// `regex::Error`, why a pattern does not compile; dropped unread.
#[verifier::external_type_specification]
#[verifier::external_body]
pub struct ExRegexError(regex::Error);

/// Whether `pattern` is a regular expression that `regex::Regex::new`
/// accepts.
pub uninterp spec fn pattern_compiles(pattern: Seq<char>) -> bool;

/// The capture groups of the leftmost match of `pattern` in `text`, as
/// `regex::Regex::captures` gives them: group 0 is the whole match, a group
/// that took no part in the match is `None`, and the whole is `None` where
/// nothing matches.
pub uninterp spec fn pattern_captures(pattern: Seq<char>, text: Seq<char>) -> Option<
    Seq<Option<Seq<char>>>,
>;

/// The pieces of `text` between the successive matches of `pattern`, as
/// `regex::Regex::split` gives them.
pub uninterp spec fn pattern_split(pattern: Seq<char>, text: Seq<char>) -> Seq<Seq<char>>;

/// A capture group as contracts speak of it.
pub open spec fn group_view(group: Option<String>) -> Option<Seq<char>> {
    match group {
        Some(text) => Some(text@),
        None => None,
    }
}

/// The capture groups of a match as contracts speak of them.
pub open spec fn groups_view(groups: Seq<Option<String>>) -> Seq<Option<Seq<char>>> {
    groups.map_values(|g: Option<String>| group_view(g))
}

/// The outcome of a search as contracts speak of it.
pub open spec fn found_view(found: Option<Vec<Option<String>>>) -> Option<Seq<Option<Seq<char>>>> {
    match found {
        Some(groups) => Some(groups_view(groups@)),
        None => None,
    }
}

/// Compiles `pattern` with `regex::Regex::new` and searches `text` with
/// `regex::Regex::captures`. Fails exactly where the pattern does not
/// compile; otherwise hands out the groups of the leftmost match, each as an
/// owned string, or `None` where nothing matches.
#[verifier::external_body]
pub(crate) fn captures(pattern: &str, text: &str) -> (out: Result<
    Option<Vec<Option<String>>>,
    regex::Error,
>)
    ensures
        out is Ok <==> pattern_compiles(pattern@),
        out matches Ok(found) ==> found_view(found) == pattern_captures(pattern@, text@),
{
    let re = Regex::new(pattern)?;
    Ok(re.captures(text).map(|c| c.iter().map(|g| g.map(|m| m.as_str().to_owned())).collect()))
}

/// Compiles `pattern` with `regex::Regex::new` and cuts `text` with
/// `regex::Regex::split`. Fails exactly where the pattern does not compile;
/// otherwise hands out the pieces in order, each as an owned string.
#[verifier::external_body]
pub(crate) fn split(pattern: &str, text: &str) -> (out: Result<Vec<String>, regex::Error>)
    ensures
        out is Ok <==> pattern_compiles(pattern@),
        out matches Ok(pieces) ==> crate::assoc::views(pieces@) == pattern_split(
            pattern@,
            text@,
        ),
{
    let re = Regex::new(pattern)?;
    Ok(re.split(text).map(|piece| piece.to_owned()).collect())
}

/// The text of group `i`, where the match has such a group and it took part.
pub open spec fn group_text(groups: Seq<Option<Seq<char>>>, i: int) -> Option<Seq<char>> {
    if 0 <= i < groups.len() {
        groups[i]
    } else {
        None
    }
}

/// The text of group `i` of a match.
pub fn group(groups: &Vec<Option<String>>, i: usize) -> (out: Option<&String>)
    ensures
        match out {
            Some(text) => group_text(groups_view(groups@), i as int) == Some(text@),
            None => group_text(groups_view(groups@), i as int) is None,
        },
{
    if i < groups.len() {
        match &groups[i] {
            Some(text) => Some(text),
            None => None,
        }
    } else {
        None
    }
}

} // verus!
