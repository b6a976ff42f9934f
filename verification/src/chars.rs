//! Texts as sequences of characters: conversion, trimming and search.

use vstd::prelude::*;
use vstd::string::*;
use vstd::std_specs::iter::IteratorSpec;
use crate::text::is_blank;

verus! {

broadcast use vstd::string::group_string_axioms;

/// The characters of a text.
pub fn to_chars(text: &str) -> (chars: Vec<char>)
    ensures
        chars@ == text@,
{
    let mut chars: Vec<char> = Vec::new();
    let mut rest = text.chars();
    loop
        invariant_except_break
            chars.len() <= text@.len(),
            rest.remaining() == text@.skip(chars.len() as int),
            chars@ == text@.take(chars.len() as int),
        ensures
            chars@ == text@,
        decreases text@.len() - chars.len(),
    {
        match rest.next() {
            Some(c) => {
                chars.push(c);
            },
            None => {
                break ;
            },
        }
    }
    chars
}

/// The text made of the characters from `from` up to `to`.
pub fn text_between(chars: &Vec<char>, from: usize, to: usize) -> (text: String)
    requires
        from <= to <= chars.len(),
    ensures
        text@ == chars@.subrange(from as int, to as int),
{
    let mut text = String::new();
    let mut i: usize = from;
    while i < to
        invariant
            from <= i <= to <= chars.len(),
            text@ == chars@.subrange(from as int, i as int),
        decreases to - i,
    {
        text.push(chars[i]);
        i += 1;
    }
    text
}

/// A text without the whitespace at its start.
pub open spec fn trim_start(text: Seq<char>) -> Seq<char>
    decreases text.len(),
{
    if text.len() > 0 && is_blank(text.first()) {
        trim_start(text.drop_first())
    } else {
        text
    }
}

/// A text without the whitespace at its end.
pub open spec fn trim_end(text: Seq<char>) -> Seq<char>
    decreases text.len(),
{
    if text.len() > 0 && is_blank(text.last()) {
        trim_end(text.drop_last())
    } else {
        text
    }
}

/// A text without the whitespace at its start and at its end.
pub open spec fn trim(text: Seq<char>) -> Seq<char> {
    trim_end(trim_start(text))
}

/// Narrows a range of characters to what `trim` leaves of it.
pub fn trim_range(chars: &Vec<char>, from: usize, to: usize) -> (range: (usize, usize))
    requires
        from <= to <= chars.len(),
    ensures
        from <= range.0 <= range.1 <= to,
        chars@.subrange(range.0 as int, range.1 as int) == trim(chars@.subrange(from as int, to as int)),
{
    let mut start = from;
    while start < to && chars[start].is_whitespace()
        invariant
            from <= start <= to <= chars.len(),
            trim_start(chars@.subrange(start as int, to as int)) == trim_start(
                chars@.subrange(from as int, to as int),
            ),
        decreases to - start,
    {
        proof {
            assert(chars@.subrange(start as int, to as int).drop_first() =~= chars@.subrange(start + 1, to as int));
        }
        start += 1;
    }
    let mut end = to;
    while end > start && chars[end - 1].is_whitespace()
        invariant
            start <= end <= to <= chars.len(),
            trim_end(chars@.subrange(start as int, end as int)) == trim_end(
                chars@.subrange(start as int, to as int),
            ),
        decreases end - start,
    {
        proof {
            assert(chars@.subrange(start as int, end as int).drop_last() =~= chars@.subrange(
                start as int,
                end - 1,
            ));
        }
        end -= 1;
    }
    (start, end)
}

/// Whether `pattern` stands in `text` at position `at`.
pub open spec fn occurs_at(text: Seq<char>, pattern: Seq<char>, at: int) -> bool {
    0 <= at && at + pattern.len() <= text.len() && text.subrange(at, at + pattern.len()) == pattern
}

/// Whether `pattern` stands somewhere in `text`.
pub open spec fn occurs_in(text: Seq<char>, pattern: Seq<char>) -> bool {
    exists|at: int| occurs_at(text, pattern, at)
}

/// Decides `occurs_at`.
pub fn matches_at(text: &Vec<char>, pattern: &Vec<char>, at: usize) -> (found: bool)
    ensures
        found == occurs_at(text@, pattern@, at as int),
{
    if pattern.len() > text.len() || at > text.len() - pattern.len() {
        return false;
    }
    let mut k: usize = 0;
    while k < pattern.len()
        invariant
            k <= pattern.len(),
            at + pattern.len() <= text.len(),
            forall|j: int| 0 <= j < k ==> text[at + j] == pattern[j],
        decreases pattern.len() - k,
    {
        if text[at + k] != pattern[k] {
            return false;
        }
        k += 1;
    }
    assert(text@.subrange(at as int, at + pattern.len()) =~= pattern@);
    true
}

/// The first position from `from` on at which `pattern` stands in `text`.
pub fn find_from(text: &Vec<char>, pattern: &Vec<char>, from: usize) -> (found: Option<usize>)
    ensures
        match found {
            Some(at) => from <= at && occurs_at(text@, pattern@, at as int) && forall|earlier: int|
                from <= earlier < at ==> !occurs_at(text@, pattern@, earlier),
            None => forall|at: int| from <= at ==> !occurs_at(text@, pattern@, at),
        },
{
    let mut at: usize = from;
    while at <= text.len()
        invariant
            from <= at,
            forall|earlier: int| from <= earlier < at ==> !occurs_at(text@, pattern@, earlier),
        decreases text.len() - at,
    {
        if matches_at(text, pattern, at) {
            return Some(at);
        }
        if at == text.len() {
            return None;
        }
        at += 1;
    }
    None
}

/// Whether `pattern` stands somewhere in `text`.
pub fn contains_text(text: &Vec<char>, pattern: &Vec<char>) -> (found: bool)
    ensures
        found == occurs_in(text@, pattern@),
{
    find_from(text, pattern, 0).is_some()
}

/// What an optional text says.
pub open spec fn shown(text: Option<String>) -> Option<Seq<char>> {
    match text {
        Some(t) => Some(t@),
        None => None,
    }
}

/// The texts of a list, with a separator between each two of them.
pub open spec fn joined(texts: Seq<Seq<char>>, separator: Seq<char>) -> Seq<char>
    decreases texts.len(),
{
    if texts.len() == 0 {
        Seq::empty()
    } else if texts.len() == 1 {
        texts[0]
    } else {
        joined(texts.drop_last(), separator) + separator + texts.last()
    }
}

/// Joins the texts of a list.
pub fn join(texts: &Vec<String>, separator: &str) -> (text: String)
    ensures
        text@ == joined(texts.deep_view(), separator@),
{
    let mut text = String::new();
    let mut i: usize = 0;
    while i < texts.len()
        invariant
            i <= texts.len(),
            text@ == joined(texts.deep_view().take(i as int), separator@),
        decreases texts.len() - i,
    {
        proof {
            assert(texts.deep_view().take(i + 1).drop_last() =~= texts.deep_view().take(i as int));
        }
        if i > 0 {
            text.append(separator);
        }
        text.append(texts[i].as_str());
        i += 1;
    }
    proof {
        assert(texts.deep_view().take(i as int) =~= texts.deep_view());
    }
    text
}

} // verus!
