//! Regular-expression searches, made through the `regex` crate.

use vstd::prelude::*;

verus! {

/// The view of an optional string.
pub open spec fn opt_view(s: Option<String>) -> Option<Seq<char>> {
    match s {
        Some(t) => Some(t@),
        None => None,
    }
}

/// The views of a sequence of strings.
pub open spec fn string_views(v: Seq<String>) -> Seq<Seq<char>> {
    Seq::new(v.len(), |i: int| v[i]@)
}

/// The error of `regex::Regex::new` for a pattern that does not compile.
#[verifier::external_type_specification]
#[verifier::external_body]
pub struct ExRegexError(regex::Error);

/// What the first match of a pattern holds in its first group.
pub enum FirstGroup {
    /// The pattern does not match anywhere.
    NoMatch,
    /// The first match exists but its first group took no part in it.
    NoGroup,
    /// The text of the first group of the first match.
    Group(String),
}

/// The mathematical counterpart of [`FirstGroup`].
pub enum GroupOutcome {
    NoMatch,
    NoGroup,
    Group(Seq<char>),
}

impl View for FirstGroup {
    type V = GroupOutcome;

    open spec fn view(&self) -> GroupOutcome {
        match self {
            FirstGroup::NoMatch => GroupOutcome::NoMatch,
            FirstGroup::NoGroup => GroupOutcome::NoGroup,
            FirstGroup::Group(s) => GroupOutcome::Group(s@),
        }
    }
}

/// What `regex::Regex::new(pattern)` followed by `captures(haystack)` yields
/// for capture group 1; `None` when the pattern does not compile.
pub uninterp spec fn regex_first_group(pattern: Seq<char>, haystack: Seq<char>) -> Option<GroupOutcome>;

/// For each match of `pattern` in `haystack`, left to right as
/// `regex::Regex::captures_iter` yields them, the texts of groups 1 and 2;
/// `None` when the pattern does not compile.
pub uninterp spec fn regex_group_pairs(pattern: Seq<char>, haystack: Seq<char>) -> Option<
    Seq<(Option<Seq<char>>, Option<Seq<char>>)>,
>;

/// Compiles `pattern` with `regex::Regex::new` and returns capture group 1 of
/// `regex::Regex::captures` on `haystack`. The contract claims only that the
/// outcome, and whether the pattern compiles, are the named function of the
/// two strings; which text the group holds is left to the `regex` crate.
#[verifier::external_body]
pub(crate) fn first_group(pattern: &str, haystack: &str) -> (r: Result<FirstGroup, regex::Error>)
    ensures
        match r {
            Ok(c) => regex_first_group(pattern@, haystack@) == Some(c@),
            Err(_) => regex_first_group(pattern@, haystack@) is None,
        },
{
    let re = regex::Regex::new(pattern)?;
    Ok(
        match re.captures(haystack) {
            None => FirstGroup::NoMatch,
            Some(caps) => match caps.get(1) {
                None => FirstGroup::NoGroup,
                Some(m) => FirstGroup::Group(m.as_str().to_string()),
            },
        },
    )
}

/// The views of the group pairs that [`group_pairs`] returns.
pub open spec fn pair_views(v: Seq<(Option<String>, Option<String>)>) -> Seq<
    (Option<Seq<char>>, Option<Seq<char>>),
> {
    Seq::new(v.len(), |i: int| (opt_view(v[i].0), opt_view(v[i].1)))
}

/// Compiles `pattern` with `regex::Regex::new` and returns, for every match
/// that `regex::Regex::captures_iter` yields on `haystack`, the texts of
/// groups 1 and 2. The contract claims only that the list is the named
/// function of the two strings.
#[verifier::external_body]
pub(crate) fn group_pairs(pattern: &str, haystack: &str) -> (r: Result<
    Vec<(Option<String>, Option<String>)>,
    regex::Error,
>)
    ensures
        match r {
            Ok(v) => regex_group_pairs(pattern@, haystack@) == Some(pair_views(v@)),
            Err(_) => regex_group_pairs(pattern@, haystack@) is None,
        },
{
    let re = regex::Regex::new(pattern)?;
    let mut pairs = Vec::new();
    for caps in re.captures_iter(haystack) {
        let first = caps.get(1).map(|m| m.as_str().to_string());
        pairs.push((first, caps.get(2).map(|m| m.as_str().to_string())));
    }
    Ok(pairs)
}

} // verus!
