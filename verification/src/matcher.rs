//! Multi-pattern search, seen through contracts.
//!
//! A matcher is an `aho_corasick::AhoCorasick` automaton built with the
//! default configuration. Nothing in this file is proved: each function states
//! what the call it makes does, in terms of the patterns that the matcher was
//! built from.

use vstd::prelude::*;
use aho_corasick::AhoCorasick;
use crate::chars::occurs_in;

verus! {

#[verifier::external_type_specification]
#[verifier::external_body]
pub struct ExAhoCorasick(AhoCorasick);

/// The patterns that a matcher was built from, in order.
pub uninterp spec fn patterns_of(matcher: AhoCorasick) -> Seq<Seq<char>>;

/// The matches that a search for the patterns finds in a text: for each
/// match, from left to right, the place of its pattern among the patterns.
/// Matches do not overlap, and a match is reported as soon as it is seen.
pub uninterp spec fn matches_in(patterns: Seq<Seq<char>>, text: Seq<char>) -> Seq<usize>;

/// `AhoCorasick::new` builds a matcher for the given patterns, or fails when
/// they are too many or too long for it. Nothing is claimed of when it fails.
#[verifier::external_body]
pub(crate) fn build_matcher(patterns: &Vec<String>) -> (matcher: Option<AhoCorasick>)
    ensures
        matcher is Some ==> patterns_of(matcher->0) == patterns.deep_view(),
{
    AhoCorasick::new(patterns).ok()
}

/// `AhoCorasick::find_iter` yields the matches of a search, which depend on
/// the patterns and the text alone; of each the pattern is taken with
/// `Match::pattern`, which is the place of the pattern among those that the
/// matcher was built from.
#[verifier::external_body]
pub(crate) fn find_matches(matcher: &AhoCorasick, text: &str) -> (found: Vec<usize>)
    ensures
        found@ == matches_in(patterns_of(*matcher), text@),
        forall|i: int| 0 <= i < found.len() ==> (#[trigger] found[i]) < patterns_of(*matcher).len(),
{
    matcher.find_iter(text).map(|m| m.pattern().as_usize()).collect()
}

/// `AhoCorasick::is_match` says whether any of the patterns stands anywhere
/// in the text.
#[verifier::external_body]
pub(crate) fn any_match(matcher: &AhoCorasick, text: &str) -> (hit: bool)
    ensures
        hit == (exists|i: int|
            0 <= i < patterns_of(*matcher).len() && occurs_in(text@, #[trigger] patterns_of(*matcher)[i])),
{
    matcher.is_match(text)
}

} // verus!
