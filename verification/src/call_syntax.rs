//! The argument list of a tool call: where it ends, how it splits at commas,
//! and what its quoted values say.
//!
//! A text is read from left to right. A backslash takes the next character
//! out of play; a quote opens a string that the same quote closes; outside
//! strings parentheses nest.

use vstd::prelude::*;
use vstd::string::*;
use crate::chars::{text_between, to_chars, trim, trim_range};

verus! {

/// Where a reader stands after a part of a text: inside a string or not,
/// right behind a backslash or not, and how deep in parentheses.
pub struct Lex {
    /// The quote that opened the string the reader is in, if any.
    pub quote: Option<char>,
    /// Whether the last character was a backslash that is still in force.
    pub escaped: bool,
    /// Parentheses opened minus parentheses closed, outside strings.
    pub depth: int,
}

/// Where a reader stands before the first character.
pub open spec fn lex_start() -> Lex {
    Lex { quote: None, escaped: false, depth: 0 }
}

/// Where a reader stands after one more character.
pub open spec fn lex_step(state: Lex, c: char) -> Lex {
    if state.escaped {
        Lex { escaped: false, ..state }
    } else if c == '\\' {
        Lex { escaped: true, ..state }
    } else if state.quote is Some {
        if state.quote == Some(c) {
            Lex { quote: None, ..state }
        } else {
            state
        }
    } else if c == '"' || c == '\'' {
        Lex { quote: Some(c), ..state }
    } else if c == '(' {
        Lex { depth: state.depth + 1, ..state }
    } else if c == ')' {
        Lex { depth: state.depth - 1, ..state }
    } else {
        state
    }
}

/// Where a reader stands after a text.
pub open spec fn lex_after(text: Seq<char>) -> Lex
    decreases text.len(),
{
    if text.len() == 0 {
        lex_start()
    } else {
        lex_step(lex_after(text.drop_last()), text.last())
    }
}

/// Whether the character at `at` is read as itself: it is outside strings
/// and no backslash stands before it.
pub open spec fn is_plain_at(text: Seq<char>, at: int) -> bool {
    0 <= at < text.len() && !lex_after(text.take(at)).escaped && lex_after(text.take(at)).quote is None
}

/// Whether the character at `at` is a closing parenthesis that closes more
/// than the text has opened.
pub open spec fn closes_at(text: Seq<char>, at: int) -> bool {
    is_plain_at(text, at) && text[at] == ')' && lex_after(text.take(at)).depth == 0
}

/// Whether the character at `at` is a comma that separates arguments.
pub open spec fn separates_at(text: Seq<char>, at: int) -> bool {
    is_plain_at(text, at) && text[at] == ',' && lex_after(text.take(at)).depth == 0
}

/// The state of a reader as the program holds it.
struct Reader {
    in_string: bool,
    quote: char,
    escaped: bool,
    depth: i128,
}

impl Reader {
    spec fn shows(self, state: Lex) -> bool {
        &&& state.escaped == self.escaped
        &&& state.depth == self.depth
        &&& state.quote == if self.in_string {
            Some(self.quote)
        } else {
            None
        }
    }

    fn start() -> (reader: Reader)
        ensures
            reader.shows(lex_start()),
    {
        Reader { in_string: false, quote: '"', escaped: false, depth: 0 }
    }

    fn step(self, c: char, Ghost(state): Ghost<Lex>) -> (next: Reader)
        requires
            self.shows(state),
            i128::MIN < self.depth < i128::MAX,
        ensures
            next.shows(lex_step(state, c)),
    {
        if self.escaped {
            Reader { escaped: false, ..self }
        } else if c == '\\' {
            Reader { escaped: true, ..self }
        } else if self.in_string {
            if c == self.quote {
                Reader { in_string: false, ..self }
            } else {
                self
            }
        } else if c == '"' || c == '\'' {
            Reader { in_string: true, quote: c, ..self }
        } else if c == '(' {
            Reader { depth: self.depth + 1, ..self }
        } else if c == ')' {
            Reader { depth: self.depth - 1, ..self }
        } else {
            self
        }
    }

    fn is_plain(&self) -> (plain: bool)
        ensures
            plain == (!self.escaped && !self.in_string),
    {
        !self.escaped && !self.in_string
    }
}

/// The depth never leaves the number of characters read.
proof fn lemma_depth_bounded(text: Seq<char>)
    ensures
        -text.len() <= lex_after(text).depth <= text.len(),
    decreases text.len(),
{
    if text.len() > 0 {
        lemma_depth_bounded(text.drop_last());
    }
}

/// Finds the parenthesis that closes an argument list, given the text behind
/// the opening parenthesis: the first closing parenthesis outside strings that
/// has no partner in the text. There may be none.
pub fn find_matching_paren(text: &Vec<char>) -> (found: Option<usize>)
    ensures
        match found {
            Some(at) => closes_at(text@, at as int) && forall|earlier: int|
                0 <= earlier < at ==> !closes_at(text@, earlier),
            None => forall|at: int| 0 <= at < text.len() ==> !closes_at(text@, at),
        },
{
    let mut reader = Reader::start();
    let mut i: usize = 0;
    while i < text.len()
        invariant
            i <= text.len(),
            reader.shows(lex_after(text@.take(i as int))),
            forall|earlier: int| 0 <= earlier < i ==> !closes_at(text@, earlier),
        decreases text.len() - i,
    {
        let c = text[i];
        proof {
            lemma_depth_bounded(text@.take(i as int));
        }
        if reader.is_plain() && c == ')' && reader.depth == 0 {
            return Some(i);
        }
        proof {
            assert(text@.take(i + 1).drop_last() =~= text@.take(i as int));
        }
        reader = reader.step(c, Ghost(lex_after(text@.take(i as int))));
        i += 1;
    }
    None
}

/// Where the argument that is being read at `upto` begins: behind the last
/// separating comma before `upto`, or at the start.
pub open spec fn part_start(text: Seq<char>, upto: int) -> int
    decreases upto,
{
    if upto <= 0 {
        0
    } else if separates_at(text, upto - 1) {
        upto
    } else {
        part_start(text, upto - 1)
    }
}

/// The arguments that are complete at `upto`: the texts between separating
/// commas, trimmed; an empty one is left out.
pub open spec fn parts_before(text: Seq<char>, upto: int) -> Seq<Seq<char>>
    decreases upto,
{
    if upto <= 0 {
        Seq::empty()
    } else {
        let before = parts_before(text, upto - 1);
        let part = trim(text.subrange(part_start(text, upto - 1), upto - 1));
        if separates_at(text, upto - 1) && part.len() > 0 {
            before.push(part)
        } else {
            before
        }
    }
}

/// The arguments of an argument list: its parts between the commas that
/// stand outside strings and parentheses, trimmed; empty parts are left out.
pub open spec fn split_parts(text: Seq<char>) -> Seq<Seq<char>> {
    let before = parts_before(text, text.len() as int);
    let part = trim(text.subrange(part_start(text, text.len() as int), text.len() as int));
    if part.len() > 0 {
        before.push(part)
    } else {
        before
    }
}

/// The start of a part lies within what was read.
proof fn lemma_part_start_bounded(text: Seq<char>, upto: int)
    requires
        0 <= upto <= text.len(),
    ensures
        0 <= part_start(text, upto) <= upto,
    decreases upto,
{
    if upto > 0 && !separates_at(text, upto - 1) {
        lemma_part_start_bounded(text, upto - 1);
    }
}

/// Splits an argument list into its arguments.
pub fn split_args(text: &Vec<char>) -> (parts: Vec<String>)
    ensures
        parts.deep_view() == split_parts(text@),
{
    let mut parts: Vec<String> = Vec::new();
    let mut reader = Reader::start();
    let mut start: usize = 0;
    let mut i: usize = 0;
    while i < text.len()
        invariant
            i <= text.len(),
            start <= i,
            start == part_start(text@, i as int),
            reader.shows(lex_after(text@.take(i as int))),
            parts.deep_view() == parts_before(text@, i as int),
        decreases text.len() - i,
    {
        let c = text[i];
        proof {
            lemma_depth_bounded(text@.take(i as int));
            assert(text@.take(i + 1).drop_last() =~= text@.take(i as int));
        }
        if reader.is_plain() && c == ',' && reader.depth == 0 {
            let (from, to) = trim_range(text, start, i);
            if to > from {
                let part = text_between(text, from, to);
                parts.push(part);
            }
            start = i + 1;
        }
        reader = reader.step(c, Ghost(lex_after(text@.take(i as int))));
        i += 1;
    }
    let (from, to) = trim_range(text, start, text.len());
    if to > from {
        let part = text_between(text, from, to);
        parts.push(part);
    }
    parts
}

/// A text in which every pair of the characters `first`, `second` is
/// replaced by `single`, pairs being looked for from left to right behind
/// what was already replaced.
pub open spec fn replaced(text: Seq<char>, first: char, second: char, single: char) -> Seq<char>
    decreases text.len(),
{
    if text.len() < 2 {
        text
    } else if text[0] == first && text[1] == second {
        seq![single] + replaced(text.skip(2), first, second, single)
    } else {
        seq![text[0]] + replaced(text.skip(1), first, second, single)
    }
}

/// Replaces every pair `first`, `second` by `single`.
pub fn replace_pair(text: &Vec<char>, first: char, second: char, single: char) -> (out: Vec<char>)
    ensures
        out@ == replaced(text@, first, second, single),
{
    let mut out: Vec<char> = Vec::new();
    let mut i: usize = 0;
    proof {
        assert(text@.skip(0) =~= text@);
    }
    while i < text.len()
        invariant
            i <= text.len(),
            out@ + replaced(text@.skip(i as int), first, second, single) == replaced(text@, first, second, single),
        decreases text.len() - i,
    {
        let ghost rest = text@.skip(i as int);
        if i + 1 < text.len() && text[i] == first && text[i + 1] == second {
            proof {
                assert(rest.skip(2) =~= text@.skip(i + 2));
                assert(out@.push(single) + replaced(text@.skip(i + 2), first, second, single) =~= out@ + replaced(
                    rest,
                    first,
                    second,
                    single,
                ));
            }
            out.push(single);
            i += 2;
        } else {
            proof {
                if rest.len() >= 2 {
                    assert(rest.skip(1) =~= text@.skip(i + 1));
                    assert(out@.push(text[i as int]) + replaced(text@.skip(i + 1), first, second, single) =~= out@
                        + replaced(rest, first, second, single));
                } else {
                    assert(out@.push(text[i as int]) + replaced(text@.skip(i + 1), first, second, single) =~= out@
                        + replaced(rest, first, second, single));
                }
            }
            out.push(text[i]);
            i += 1;
        }
    }
    out
}

/// What the inside of a quoted value says: `\"` stands for a double quote,
/// `\'` for a single quote, `\\` for a backslash, `\n` for a line feed and
/// `\t` for a tab, each kind being replaced in turn.
pub open spec fn unescaped(inner: Seq<char>) -> Seq<char> {
    let quotes = replaced(replaced(inner, '\\', '"', '"'), '\\', '\'', '\'');
    let backslashes = replaced(quotes, '\\', '\\', '\\');
    replaced(replaced(backslashes, '\\', 'n', '\n'), '\\', 't', '\t')
}

/// Whether a trimmed text is a quoted value: it begins and ends with the
/// same quote, and the two are not one character.
pub open spec fn is_quoted(text: Seq<char>) -> bool {
    text.len() >= 2 && ((text.first() == '"' && text.last() == '"') || (text.first() == '\'' && text.last()
        == '\''))
}

/// What a value says: a quoted value says what stands between its quotes,
/// with escapes resolved; any other value says what it is, trimmed.
pub open spec fn unquoted(text: Seq<char>) -> Seq<char> {
    let value = trim(text);
    if is_quoted(value) {
        unescaped(value.subrange(1, value.len() - 1))
    } else {
        value
    }
}

/// Reads the value that stands in a range of characters.
pub fn unquote_range(text: &Vec<char>, from: usize, to: usize) -> (value: String)
    requires
        from <= to <= text.len(),
    ensures
        value@ == unquoted(text@.subrange(from as int, to as int)),
{
    let (start, end) = trim_range(text, from, to);
    let ghost value = text@.subrange(start as int, end as int);
    if end - start >= 2 && ((text[start] == '"' && text[end - 1] == '"') || (text[start] == '\'' && text[end - 1]
        == '\'')) {
        let mut inner: Vec<char> = Vec::new();
        let mut i: usize = start + 1;
        while i < end - 1
            invariant
                start + 1 <= i <= end - 1,
                end <= text.len(),
                inner@ == text@.subrange(start + 1, i as int),
            decreases end - i,
        {
            inner.push(text[i]);
            i += 1;
        }
        assert(inner@ =~= value.subrange(1, value.len() - 1));
        let a = replace_pair(&inner, '\\', '"', '"');
        let b = replace_pair(&a, '\\', '\'', '\'');
        let c = replace_pair(&b, '\\', '\\', '\\');
        let d = replace_pair(&c, '\\', 'n', '\n');
        let e = replace_pair(&d, '\\', 't', '\t');
        let out = text_between(&e, 0, e.len());
        out
    } else {
        text_between(text, start, end)
    }
}

/// Reads a value.
pub fn unquote(text: &str) -> (value: String)
    ensures
        value@ == unquoted(text@),
{
    let chars = to_chars(text);
    assert(chars@.subrange(0, chars.len() as int) =~= chars@);
    unquote_range(&chars, 0, chars.len())
}

/// The quote that is open after a text, when quotes are read without
/// regard to backslashes: a quote opens a string and the same quote closes
/// it.
pub open spec fn open_quote(text: Seq<char>) -> Option<char>
    decreases text.len(),
{
    if text.len() == 0 {
        None
    } else {
        let before = open_quote(text.drop_last());
        let c = text.last();
        if before is None {
            if c == '"' || c == '\'' {
                Some(c)
            } else {
                None
            }
        } else if before == Some(c) {
            None
        } else {
            before
        }
    }
}

/// Whether the character at `at` stands inside a string, when quotes are
/// read without regard to backslashes. A position past the end is in no
/// string.
pub open spec fn in_string_at(text: Seq<char>, at: int) -> bool {
    0 <= at < text.len() && open_quote(text.take(at)) is Some
}

/// Decides `in_string_at`.
pub fn eq_in_string(text: &Vec<char>, at: usize) -> (inside: bool)
    ensures
        inside == in_string_at(text@, at as int),
{
    if at >= text.len() {
        return false;
    }
    let mut in_string = false;
    let mut quote = '"';
    let mut i: usize = 0;
    while i < at
        invariant
            i <= at < text.len(),
            open_quote(text@.take(i as int)) == if in_string {
                Some(quote)
            } else {
                None
            },
        decreases at - i,
    {
        let c = text[i];
        proof {
            assert(text@.take(i + 1).drop_last() =~= text@.take(i as int));
        }
        if !in_string && (c == '"' || c == '\'') {
            in_string = true;
            quote = c;
        } else if in_string && c == quote {
            in_string = false;
        }
        i += 1;
    }
    in_string
}

/// Where the first `needle` stands in a text, if anywhere.
pub open spec fn first_index_of(text: Seq<char>, needle: char) -> Option<int>
    decreases text.len(),
{
    if text.len() == 0 {
        None
    } else {
        match first_index_of(text.drop_last(), needle) {
            Some(at) => Some(at),
            None => if text.last() == needle {
                Some(text.len() - 1)
            } else {
                None
            },
        }
    }
}

/// Finds the first `needle` in a range of characters.
pub fn find_char(text: &Vec<char>, from: usize, to: usize, needle: char) -> (found: Option<usize>)
    requires
        from <= to <= text.len(),
    ensures
        match found {
            Some(at) => from <= at < to && first_index_of(text@.subrange(from as int, to as int), needle) == Some(
                at - from,
            ),
            None => first_index_of(text@.subrange(from as int, to as int), needle) is None,
        },
{
    let ghost part = text@.subrange(from as int, to as int);
    let mut i: usize = from;
    while i < to
        invariant
            from <= i <= to <= text.len(),
            part == text@.subrange(from as int, to as int),
            first_index_of(part.take(i - from), needle) is None,
        decreases to - i,
    {
        proof {
            assert(part.take(i - from + 1).drop_last() =~= part.take(i - from));
        }
        if text[i] == needle {
            proof {
                lemma_first_index_settled(part, needle, i - from + 1);
            }
            return Some(i);
        }
        i += 1;
    }
    proof {
        assert(part.take(i - from) =~= part);
    }
    None
}

/// A character found in a prefix is the first in the whole text.
proof fn lemma_first_index_settled(text: Seq<char>, needle: char, upto: int)
    requires
        0 <= upto <= text.len(),
        first_index_of(text.take(upto), needle) is Some,
    ensures
        first_index_of(text, needle) == first_index_of(text.take(upto), needle),
    decreases text.len() - upto,
{
    if upto < text.len() {
        assert(text.take(upto + 1).drop_last() =~= text.take(upto));
        lemma_first_index_settled(text, needle, upto + 1);
    } else {
        assert(text.take(upto) =~= text);
    }
}

/// What the arguments of a call say.
pub struct Arguments {
    /// The values given by position, in order.
    pub args: Seq<Seq<char>>,
    /// The values given by name, each with its name, in order. Where a name
    /// occurs twice, the later value counts.
    pub kwargs: Seq<(Seq<char>, Seq<char>)>,
}

/// Whether an argument gives a value by name: it holds an equals sign, and
/// the first one stands outside strings.
pub open spec fn is_named(part: Seq<char>) -> bool {
    match first_index_of(part, '=') {
        Some(at) => !in_string_at(part, at),
        None => false,
    }
}

/// The name of a named argument: what stands before the equals sign,
/// trimmed.
pub open spec fn name_of(part: Seq<char>) -> Seq<char> {
    trim(part.subrange(0, first_index_of(part, '=')->0))
}

/// The value of a named argument: what stands behind the equals sign.
pub open spec fn value_of(part: Seq<char>) -> Seq<char> {
    unquoted(part.subrange(first_index_of(part, '=')->0 + 1, part.len() as int))
}

/// What a sequence of arguments says.
pub open spec fn arguments_of(parts: Seq<Seq<char>>) -> Arguments
    decreases parts.len(),
{
    if parts.len() == 0 {
        Arguments { args: Seq::empty(), kwargs: Seq::empty() }
    } else {
        let before = arguments_of(parts.drop_last());
        let part = parts.last();
        if is_named(part) {
            Arguments { kwargs: before.kwargs.push((name_of(part), value_of(part))), ..before }
        } else {
            Arguments { args: before.args.push(unquoted(part)), ..before }
        }
    }
}

/// What an argument list says.
pub open spec fn parsed_arguments(text: Seq<char>) -> Arguments {
    arguments_of(split_parts(text))
}

/// The names and values of a list of pairs.
pub open spec fn pair_views(pairs: Seq<(String, String)>) -> Seq<(Seq<char>, Seq<char>)> {
    Seq::new(pairs.len(), |i: int| (pairs[i].0@, pairs[i].1@))
}

/// The first position of a character in a text lies within the text.
proof fn lemma_first_index_bounded(text: Seq<char>, needle: char)
    ensures
        first_index_of(text, needle) is Some ==> 0 <= first_index_of(text, needle)->0 < text.len(),
    decreases text.len(),
{
    if text.len() > 0 {
        lemma_first_index_bounded(text.drop_last(), needle);
    }
}

/// Reads an argument list: the values given by position and the values
/// given by name.
pub fn parse_arguments(text: &Vec<char>) -> (found: (Vec<String>, Vec<(String, String)>))
    ensures
        found.0.deep_view() == parsed_arguments(text@).args,
        pair_views(found.1@) == parsed_arguments(text@).kwargs,
{
    let parts = split_args(text);
    let mut args: Vec<String> = Vec::new();
    let mut kwargs: Vec<(String, String)> = Vec::new();
    let mut i: usize = 0;
    while i < parts.len()
        invariant
            i <= parts.len(),
            parts.deep_view() == split_parts(text@),
            args.deep_view() == arguments_of(parts.deep_view().take(i as int)).args,
            pair_views(kwargs@) == arguments_of(parts.deep_view().take(i as int)).kwargs,
        decreases parts.len() - i,
    {
        let part = to_chars(parts[i].as_str());
        proof {
            assert(parts.deep_view().take(i + 1).drop_last() =~= parts.deep_view().take(i as int));
            assert(part@.subrange(0, part.len() as int) =~= part@);
            lemma_first_index_bounded(part@, '=');
        }
        let named = match find_char(&part, 0, part.len(), '=') {
            Some(at) => if eq_in_string(&part, at) {
                None
            } else {
                Some(at)
            },
            None => None,
        };
        match named {
            Some(at) => {
                let (from, to) = trim_range(&part, 0, at);
                let name = text_between(&part, from, to);
                let value = unquote_range(&part, at + 1, part.len());
                kwargs.push((name, value));
            },
            None => {
                let value = unquote_range(&part, 0, part.len());
                args.push(value);
            },
        }
        i += 1;
    }
    proof {
        assert(parts.deep_view().take(i as int) =~= parts.deep_view());
    }
    (args, kwargs)
}

} // verus!
