//! Words of a text, and the few string operations the memory tiers need.

use vstd::prelude::*;
use vstd::string::*;
use vstd::std_specs::iter::IteratorSpec;

verus! {

broadcast use vstd::string::group_string_axioms;

/// Whether a character has the Unicode property `White_Space`.
pub uninterp spec fn is_blank(c: char) -> bool;

/// `char::is_whitespace` decides the Unicode property `White_Space`, a fixed
/// set of code points; the property is named, not spelled out.
pub assume_specification[ char::is_whitespace ](c: char) -> (white: bool)
    ensures
        white == is_blank(c),
;

/// The lowercase form of a text under the Unicode case mapping.
pub uninterp spec fn lowercase(text: Seq<char>) -> Seq<char>;

/// `str::to_lowercase` is a pure function of the text; its result is named
/// `lowercase` and nothing more is claimed of it.
pub assume_specification[ str::to_lowercase ](text: &str) -> (lower: String)
    ensures
        lower@ == lowercase(text@),
;

/// `String::push` appends one character.
pub assume_specification[ String::push ](text: &mut String, c: char)
    ensures
        final(text)@ == old(text)@.push(c),
;

/// The words of a text: its maximal runs of characters that are not
/// whitespace, in order.
pub open spec fn words(text: Seq<char>) -> Seq<Seq<char>>
    decreases text.len(),
{
    if text.len() == 0 {
        Seq::empty()
    } else {
        let before = words(text.drop_last());
        let c = text.last();
        if is_blank(c) {
            before
        } else if text.len() >= 2 && !is_blank(text[text.len() - 2]) {
            before.drop_last().push(before.last().push(c))
        } else {
            before.push(seq![c])
        }
    }
}

/// Splits a text into its words.
pub fn split_words(text: &str) -> (found: Vec<String>)
    ensures
        found.deep_view() == words(text@),
{
    let mut found: Vec<String> = Vec::new();
    let mut current = String::new();
    let mut open = false;
    let mut chars = text.chars();
    let ghost mut seen: int = 0;
    loop
        invariant_except_break
            0 <= seen <= text@.len(),
            chars.remaining() == text@.skip(seen),
            open <==> seen > 0 && !is_blank(text@[seen - 1]),
            open ==> words(text@.take(seen)) == found.deep_view().push(current@),
            !open ==> words(text@.take(seen)) == found.deep_view() && current@.len() == 0,
        ensures
            (if open { found.deep_view().push(current@) } else { found.deep_view() }) == words(text@),
        decreases text@.len() - seen,
    {
        match chars.next() {
            Some(c) => {
                proof {
                    assert(text@.take(seen + 1).drop_last() =~= text@.take(seen));
                }
                if c.is_whitespace() {
                    if open {
                        found.push(current);
                        current = String::new();
                        open = false;
                    }
                } else {
                    current.push(c);
                    proof {
                        if !open {
                            assert(current@ =~= seq![c]);
                        }
                    }
                    open = true;
                }
                proof {
                    seen = seen + 1;
                }
            },
            None => {
                proof {
                    assert(text@.take(seen) =~= text@);
                }
                break ;
            },
        }
    }
    if open {
        found.push(current);
    }
    found
}

/// `str`'s `==` compares two texts character by character.
pub assume_specification[ <str as PartialEq>::eq ](a: &str, b: &str) -> (same: bool)
    ensures
        same == (a@ == b@),
;

/// The first `count` characters of a text, or all of it when it is shorter.
pub open spec fn leading(text: Seq<char>, count: nat) -> Seq<char> {
    if text.len() <= count {
        text
    } else {
        text.take(count as int)
    }
}

/// Copies the first `count` characters of a text. Length is counted in
/// characters, not bytes.
pub fn first_chars(text: &str, count: usize) -> (head: String)
    ensures
        head@ == leading(text@, count as nat),
{
    let len = text.unicode_len();
    if len <= count {
        text.to_owned()
    } else {
        text.substring_char(0, count).to_owned()
    }
}

} // verus!
