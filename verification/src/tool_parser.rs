//! A parser for tool calls of the form `name("arg", key="value")`, and for the
//! lines of a reply that announce an action or a final answer.

use vstd::prelude::*;
use vstd::string::*;
use crate::call_syntax::{
    closes_at,
    find_char,
    find_matching_paren,
    first_index_of,
    pair_views,
    parse_arguments,
    parsed_arguments,
};
use crate::chars::{
    contains_text,
    find_from,
    join,
    joined,
    matches_at,
    occurs_at,
    occurs_in,
    shown,
    text_between,
    to_chars,
    trim,
    trim_range,
};

verus! {

/// A tool call.
#[derive(Debug)]
pub struct ToolCall {
    /// The name of the tool.
    pub name: String,
    /// The values given by position, in order.
    pub args: Vec<String>,
    /// The values given by name, each with its name, in order. Where a name
    /// occurs twice, the later value counts.
    pub kwargs: Vec<(String, String)>,
}

/// What a tool call says.
pub struct CallView {
    pub name: Seq<char>,
    pub args: Seq<Seq<char>>,
    pub kwargs: Seq<(Seq<char>, Seq<char>)>,
}

impl View for ToolCall {
    type V = CallView;

    open spec fn view(&self) -> CallView {
        CallView { name: self.name@, args: self.args.deep_view(), kwargs: pair_views(self.kwargs@) }
    }
}

/// Why a text is no tool call.
#[derive(Debug)]
pub enum ParseError {
    /// The text holds no opening parenthesis.
    NoParentheses { input: String },
    /// The name is none of the known tools.
    UnknownTool { name: String, known: Vec<String> },
    /// The argument list is not closed.
    NoClosingParenthesis,
}

/// What a parse error says.
pub enum ErrorView {
    NoParentheses { input: Seq<char> },
    UnknownTool { name: Seq<char>, known: Seq<Seq<char>> },
    NoClosingParenthesis,
}

impl View for ParseError {
    type V = ErrorView;

    open spec fn view(&self) -> ErrorView {
        match self {
            ParseError::NoParentheses { input } => ErrorView::NoParentheses { input: input@ },
            ParseError::UnknownTool { name, known } => ErrorView::UnknownTool {
                name: name@,
                known: known.deep_view(),
            },
            ParseError::NoClosingParenthesis => ErrorView::NoClosingParenthesis,
        }
    }
}

/// The message of a parse error.
pub open spec fn message_of(error: ErrorView) -> Seq<char> {
    match error {
        ErrorView::NoParentheses { input } => "Нет скобок в вызове: '"@ + input
            + "'. Формат: tool_name(\"аргументы\")"@,
        ErrorView::UnknownTool { name, known } => "Инструмент '"@ + name
            + "' не существует. Доступны: "@ + joined(known, ", "@),
        ErrorView::NoClosingParenthesis => "Не найдена закрывающая скобка"@,
    }
}

/// Whether `at` is where the argument list closes: the first position at
/// which a parenthesis closes more than the text has opened.
pub open spec fn is_matching_paren(text: Seq<char>, at: int) -> bool {
    closes_at(text, at) && forall|earlier: int| 0 <= earlier < at ==> !closes_at(text, earlier)
}

/// Where the argument list closes, if it does.
pub open spec fn matching_paren(text: Seq<char>) -> Option<int> {
    if exists|at: int| is_matching_paren(text, at) {
        Some(choose|at: int| is_matching_paren(text, at))
    } else {
        None
    }
}

/// There is at most one place where the argument list closes.
pub proof fn lemma_matching_paren(text: Seq<char>, at: int)
    requires
        is_matching_paren(text, at),
    ensures
        matching_paren(text) == Some(at),
{
}

/// What a text says as a tool call, given the names of the known tools; an
/// empty list of names admits every name.
pub open spec fn parsed_call(input: Seq<char>, known: Seq<Seq<char>>) -> Result<CallView, ErrorView> {
    let text = trim(input);
    match first_index_of(text, '(') {
        None => Err(ErrorView::NoParentheses { input: text }),
        Some(open) => {
            let name = trim(text.subrange(0, open));
            let rest = text.subrange(open + 1, text.len() as int);
            if known.len() > 0 && !known.contains(name) {
                Err(ErrorView::UnknownTool { name, known })
            } else {
                match matching_paren(rest) {
                    None => Err(ErrorView::NoClosingParenthesis),
                    Some(close) => {
                        let arguments = parsed_arguments(trim(rest.subrange(0, close)));
                        Ok(CallView { name, args: arguments.args, kwargs: arguments.kwargs })
                    },
                }
            }
        },
    }
}

/// The value that a list of pairs gives a name: that of the last pair with
/// the name.
pub open spec fn value_for(pairs: Seq<(Seq<char>, Seq<char>)>, name: Seq<char>) -> Option<Seq<char>>
    decreases pairs.len(),
{
    if pairs.len() == 0 {
        None
    } else if pairs.last().0 == name {
        Some(pairs.last().1)
    } else {
        value_for(pairs.drop_last(), name)
    }
}

/// Whether `at` is the first place where `pattern` stands in `text`.
pub open spec fn is_first_occurrence(text: Seq<char>, pattern: Seq<char>, at: int) -> bool {
    occurs_at(text, pattern, at) && forall|earlier: int| 0 <= earlier < at ==> !occurs_at(text, pattern, earlier)
}

/// The first place where `pattern` stands in `text`, if any.
pub open spec fn first_occurrence(text: Seq<char>, pattern: Seq<char>) -> Option<int> {
    if exists|at: int| is_first_occurrence(text, pattern, at) {
        Some(choose|at: int| is_first_occurrence(text, pattern, at))
    } else {
        None
    }
}

/// There is at most one first place.
pub proof fn lemma_first_occurrence(text: Seq<char>, pattern: Seq<char>, at: int)
    requires
        is_first_occurrence(text, pattern, at),
    ensures
        first_occurrence(text, pattern) == Some(at),
{
}

/// The marker of a line that announces an action.
pub open spec fn action_marker() -> Seq<char> {
    "ACTION:"@
}

/// The marker of a final answer.
pub open spec fn answer_marker() -> Seq<char> {
    "FINAL_ANSWER:"@
}

/// The action that a line announces: what follows the marker at the start
/// of the trimmed line, trimmed, unless nothing follows.
pub open spec fn action_of_line(line: Seq<char>) -> Option<Seq<char>> {
    let text = trim(line);
    if occurs_at(text, action_marker(), 0) {
        let action = trim(text.subrange(action_marker().len() as int, text.len() as int));
        if action.len() > 0 {
            Some(action)
        } else {
            None
        }
    } else {
        None
    }
}

/// The action that a text announces: that of its first line that announces
/// one. Lines end at line feeds.
pub open spec fn action_in(text: Seq<char>) -> Option<Seq<char>>
    decreases text.len(),
{
    match first_index_of(text, '\n') {
        None => action_of_line(text),
        Some(end) => {
            if action_of_line(text.subrange(0, end)) is Some {
                action_of_line(text.subrange(0, end))
            } else if 0 <= end < text.len() {
                action_in(text.subrange(end + 1, text.len() as int))
            } else {
                None
            }
        },
    }
}

/// The final answer that a text gives: what follows the first marker,
/// trimmed, unless nothing follows.
pub open spec fn final_answer_in(text: Seq<char>) -> Option<Seq<char>> {
    match first_occurrence(text, answer_marker()) {
        None => None,
        Some(at) => {
            let answer = trim(text.subrange(at + answer_marker().len(), text.len() as int));
            if answer.len() > 0 {
                Some(answer)
            } else {
                None
            }
        },
    }
}

impl ParseError {
    /// The message of the error.
    pub fn message(&self) -> (text: String)
        ensures
            text@ == message_of(self@),
    {
        match self {
            ParseError::NoParentheses { input } => {
                let mut text = String::from_str("Нет скобок в вызове: '");
                text.append(input.as_str());
                text.append("'. Формат: tool_name(\"аргументы\")");
                text
            },
            ParseError::UnknownTool { name, known } => {
                let mut text = String::from_str("Инструмент '");
                text.append(name.as_str());
                text.append("' не существует. Доступны: ");
                let list = join(known, ", ");
                text.append(list.as_str());
                text
            },
            ParseError::NoClosingParenthesis => String::from_str("Не найдена закрывающая скобка"),
        }
    }
}

impl ToolCall {
    /// The value given under a name, if any.
    pub fn kwarg(&self, name: &str) -> (value: Option<String>)
        ensures
            shown(value) == value_for(self@.kwargs, name@),
    {
        let ghost pairs = pair_views(self.kwargs@);
        let mut i: usize = self.kwargs.len();
        proof {
            assert(pairs.take(i as int) =~= pairs);
        }
        while i > 0
            invariant
                i <= self.kwargs.len(),
                pairs == pair_views(self.kwargs@),
                value_for(pairs, name@) == value_for(pairs.take(i as int), name@),
            decreases i,
        {
            i -= 1;
            proof {
                assert(pairs.take(i + 1).drop_last() =~= pairs.take(i as int));
            }
            if *self.kwargs[i].0.as_str() == *name {
                return Some(self.kwargs[i].1.clone());
            }
        }
        None
    }
}

/// The parser: the names of the tools it knows. With no names it takes
/// every name.
pub struct ToolCallParser {
    known_tools: Vec<String>,
}

impl View for ToolCallParser {
    type V = Seq<Seq<char>>;

    closed spec fn view(&self) -> Seq<Seq<char>> {
        self.known_tools.deep_view()
    }
}

/// Whether a list of names holds a name.
fn holds_name(names: &Vec<String>, name: &String) -> (found: bool)
    ensures
        found == names.deep_view().contains(name@),
{
    let mut i: usize = 0;
    while i < names.len()
        invariant
            i <= names.len(),
            forall|k: int| 0 <= k < i ==> names.deep_view()[k] != name@,
        decreases names.len() - i,
    {
        if names[i] == *name {
            assert(names.deep_view()[i as int] == name@);
            return true;
        }
        i += 1;
    }
    false
}

impl ToolCallParser {
    /// A parser that knows the given tools, or takes every name if there
    /// are none.
    pub fn new(known_tools: Option<Vec<String>>) -> (parser: Self)
        ensures
            parser@ == match known_tools {
                Some(names) => names.deep_view(),
                None => Seq::empty(),
            },
    {
        match known_tools {
            Some(names) => ToolCallParser { known_tools: names },
            None => {
                let names: Vec<String> = Vec::new();
                ToolCallParser { known_tools: names }
            },
        }
    }

    /// Replaces the names of the known tools.
    pub fn set_known_tools(&mut self, tools: Vec<String>)
        ensures
            final(self)@ == tools.deep_view(),
    {
        self.known_tools = tools;
    }

    /// Reads a tool call.
    pub fn parse(&self, input: &str) -> (call: Result<ToolCall, ParseError>)
        ensures
            match call {
                Ok(found) => parsed_call(input@, self@) == Ok::<CallView, ErrorView>(found@),
                Err(error) => parsed_call(input@, self@) == Err::<CallView, ErrorView>(error@),
            },
    {
        let whole = to_chars(input);
        let (start, end) = trim_range(&whole, 0, whole.len());
        proof {
            assert(whole@.subrange(0, whole.len() as int) =~= whole@);
        }
        let ghost text = whole@.subrange(start as int, end as int);
        let open = match find_char(&whole, start, end, '(') {
            Some(at) => at,
            None => {
                return Err(ParseError::NoParentheses { input: text_between(&whole, start, end) });
            },
        };
        let (name_from, name_to) = trim_range(&whole, start, open);
        let name = text_between(&whole, name_from, name_to);
        proof {
            assert(whole@.subrange(start as int, open as int) =~= text.subrange(0, open - start));
        }
        if self.known_tools.len() > 0 && !holds_name(&self.known_tools, &name) {
            let known = crate::episode::copy_texts(&self.known_tools);
            return Err(ParseError::UnknownTool { name, known });
        }
        let mut rest: Vec<char> = Vec::new();
        let mut i: usize = open + 1;
        while i < end
            invariant
                open + 1 <= i <= end <= whole.len(),
                rest@ == whole@.subrange(open + 1, i as int),
            decreases end - i,
        {
            rest.push(whole[i]);
            i += 1;
        }
        proof {
            assert(rest@ =~= text.subrange(open - start + 1, text.len() as int));
        }
        let close = match find_matching_paren(&rest) {
            Some(at) => at,
            None => {
                return Err(ParseError::NoClosingParenthesis);
            },
        };
        proof {
            lemma_matching_paren(rest@, close as int);
        }
        let (from, to) = trim_range(&rest, 0, close);
        let mut list: Vec<char> = Vec::new();
        let mut k: usize = from;
        while k < to
            invariant
                from <= k <= to <= rest.len(),
                list@ == rest@.subrange(from as int, k as int),
            decreases to - k,
        {
            list.push(rest[k]);
            k += 1;
        }
        let (args, kwargs) = parse_arguments(&list);
        Ok(ToolCall { name, args, kwargs })
    }

    /// The action that a reply announces, if any.
    pub fn extract_action(&self, text: &str) -> (action: Option<String>)
        ensures
            shown(action) == action_in(text@),
    {
        let whole = to_chars(text);
        let marker = to_chars("ACTION:");
        let mut start: usize = 0;
        let mut action: Option<String> = None;
        let mut done = false;
        proof {
            assert(whole@.subrange(0, whole.len() as int) =~= whole@);
        }
        while !done
            invariant
                start <= whole.len(),
                whole@ == text@,
                marker@ == action_marker(),
                !done ==> action_in(whole@.subrange(start as int, whole.len() as int)) == action_in(text@),
                !done ==> action is None,
                done ==> shown(action) == action_in(text@),
            decreases
                    if done {
                        0
                    } else {
                        1 + whole.len() - start
                    },
        {
            let ghost tail = whole@.subrange(start as int, whole.len() as int);
            let newline = find_char(&whole, start, whole.len(), '\n');
            let end = match newline {
                Some(at) => at,
                None => whole.len(),
            };
            proof {
                assert(tail.subrange(0, end - start) =~= whole@.subrange(start as int, end as int));
            }
            let (from, to) = trim_range(&whole, start, end);
            if to - from >= marker.len() && matches_at(&whole, &marker, from) {
                let (a, b) = trim_range(&whole, from + marker.len(), to);
                proof {
                    let line = whole@.subrange(from as int, to as int);
                    assert(line.subrange(0, marker.len() as int) =~= whole@.subrange(
                        from as int,
                        from + marker.len(),
                    ));
                    assert(line.subrange(marker.len() as int, line.len() as int) =~= whole@.subrange(
                        from + marker.len(),
                        to as int,
                    ));
                }
                if b > a {
                    action = Some(text_between(&whole, a, b));
                    done = true;
                }
            } else {
                proof {
                    let line = whole@.subrange(from as int, to as int);
                    if occurs_at(line, marker@, 0) {
                        assert(line.subrange(0, marker.len() as int) =~= whole@.subrange(
                            from as int,
                            from + marker.len(),
                        ));
                    }
                }
            }
            if !done {
                match newline {
                    Some(at) => {
                        proof {
                            assert(tail.subrange(at - start + 1, tail.len() as int) =~= whole@.subrange(
                                at + 1,
                                whole.len() as int,
                            ));
                        }
                        start = at + 1;
                    },
                    None => {
                        done = true;
                    },
                }
            }
        }
        action
    }

    /// The final answer that a reply gives, if any.
    pub fn extract_final_answer(&self, text: &str) -> (answer: Option<String>)
        ensures
            shown(answer) == final_answer_in(text@),
    {
        let whole = to_chars(text);
        let marker = to_chars("FINAL_ANSWER:");
        match find_from(&whole, &marker, 0) {
            Some(at) => {
                proof {
                    assert(at + marker.len() <= whole.len());
                    lemma_first_occurrence(whole@, marker@, at as int);
                }
                let (from, to) = trim_range(&whole, at + marker.len(), whole.len());
                if to > from {
                    Some(text_between(&whole, from, to))
                } else {
                    None
                }
            },
            None => {
                None
            },
        }
    }

    /// Whether a reply gives a final answer.
    pub fn is_final_answer(&self, text: &str) -> (found: bool)
        ensures
            found == occurs_in(text@, answer_marker()),
    {
        let whole = to_chars(text);
        let marker = to_chars("FINAL_ANSWER:");
        contains_text(&whole, &marker)
    }

    /// Whether a reply announces an action.
    pub fn is_action(&self, text: &str) -> (found: bool)
        ensures
            found == occurs_in(text@, action_marker()),
    {
        let whole = to_chars(text);
        let marker = to_chars("ACTION:");
        contains_text(&whole, &marker)
    }
}

} // verus!
