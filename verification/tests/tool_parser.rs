use kristina_core::call_syntax::{eq_in_string, find_matching_paren, parse_arguments, replace_pair, split_args, unquote};
use kristina_core::tool_parser::{ParseError, ToolCallParser};

fn chars(text: &str) -> Vec<char> {
    text.chars().collect()
}

#[test]
fn test_simple_parse() {
    let parser = ToolCallParser::new(None);
    let call = parser.parse("search(\"hello world\")").unwrap();
    assert_eq!(call.name, "search");
    assert_eq!(call.args, vec!["hello world"]);
    assert!(call.kwargs.is_empty());
}

#[test]
fn test_kwargs_parse() {
    let parser = ToolCallParser::new(None);
    let call = parser.parse("web_search(\"test\", lang=\"ru\")").unwrap();
    assert_eq!(call.name, "web_search");
    assert_eq!(call.args, vec!["test"]);
    assert_eq!(call.kwarg("lang").unwrap(), "ru");
}

#[test]
fn test_no_args() {
    let parser = ToolCallParser::new(None);
    let call = parser.parse("status()").unwrap();
    assert_eq!(call.name, "status");
    assert!(call.args.is_empty());
    assert!(call.kwargs.is_empty());
}

#[test]
fn test_extract_action() {
    let parser = ToolCallParser::new(None);
    let text = "thinking...\nACTION: search(\"test\")\nmore text";
    assert_eq!(parser.extract_action(text), Some("search(\"test\")".to_string()));
}

#[test]
fn test_final_answer() {
    let parser = ToolCallParser::new(None);
    let text = "FINAL_ANSWER: Ответ готов.";
    assert!(parser.is_final_answer(text));
    assert_eq!(parser.extract_final_answer(text), Some("Ответ готов.".to_string()));
}

#[test]
fn test_unknown_tool() {
    let parser = ToolCallParser::new(Some(vec!["search".to_string()]));
    assert!(parser.parse("unknown(\"test\")").is_err());
}

#[test]
fn parse_trims_and_reads_nested_arguments() {
    let parser = ToolCallParser::new(None);
    let call = parser.parse("  calc ( add(1, 2) , 'a, b' , depth = 3 , note=\"x=y\" )  ").unwrap();
    assert_eq!(call.name, "calc");
    assert_eq!(call.args, vec!["add(1, 2)", "a, b"]);
    assert_eq!(
        call.kwargs,
        vec![("depth".to_string(), "3".to_string()), ("note".to_string(), "x=y".to_string())]
    );
    assert_eq!(call.kwarg("depth"), Some("3".to_string()));
    assert_eq!(call.kwarg("missing"), None);
}

#[test]
fn later_keyword_overrides_earlier() {
    let parser = ToolCallParser::new(None);
    let call = parser.parse("f(a=1, b=2, a=3)").unwrap();
    assert_eq!(call.kwargs.len(), 3);
    assert_eq!(call.kwarg("a"), Some("3".to_string()));
    assert_eq!(call.kwarg("b"), Some("2".to_string()));
}

#[test]
fn text_behind_the_closing_parenthesis_is_ignored() {
    let parser = ToolCallParser::new(None);
    let call = parser.parse("f(1) and more (text)").unwrap();
    assert_eq!(call.name, "f");
    assert_eq!(call.args, vec!["1"]);
}

#[test]
fn parse_errors_say_what_is_wrong() {
    let parser = ToolCallParser::new(Some(vec!["search".to_string(), "status".to_string()]));
    let missing = parser.parse("  just text ").unwrap_err();
    assert!(matches!(&missing, ParseError::NoParentheses { input } if input == "just text"));
    assert_eq!(missing.message(), "Нет скобок в вызове: 'just text'. Формат: tool_name(\"аргументы\")");
    let unknown = parser.parse("unknown(\"test\")").unwrap_err();
    assert!(matches!(&unknown, ParseError::UnknownTool { name, .. } if name == "unknown"));
    assert_eq!(unknown.message(), "Инструмент 'unknown' не существует. Доступны: search, status");
    let open = parser.parse("search(\"test\"").unwrap_err();
    assert!(matches!(open, ParseError::NoClosingParenthesis));
    assert_eq!(open.message(), "Не найдена закрывающая скобка");
    // the name is checked before the parentheses are
    assert!(matches!(parser.parse("nothing(").unwrap_err(), ParseError::UnknownTool { .. }));
    assert!(parser.parse("status()").is_ok());
}

#[test]
fn unknown_tool_message_with_one_tool() {
    let parser = ToolCallParser::new(Some(vec!["search".to_string()]));
    assert_eq!(
        parser.parse("x()").unwrap_err().message(),
        "Инструмент 'x' не существует. Доступны: search"
    );
}

#[test]
fn set_known_tools_replaces_the_list() {
    let mut parser = ToolCallParser::new(Some(vec!["search".to_string()]));
    assert!(parser.parse("status()").is_err());
    parser.set_known_tools(vec!["status".to_string()]);
    assert!(parser.parse("status()").is_ok());
    assert!(parser.parse("search()").is_err());
    parser.set_known_tools(vec![]);
    assert!(parser.parse("search()").is_ok());
}

#[test]
fn matching_parenthesis_skips_strings_and_nesting() {
    assert_eq!(find_matching_paren(&chars("a, b)")), Some(4));
    assert_eq!(find_matching_paren(&chars("f(x), g(y)) tail)")), Some(10));
    assert_eq!(find_matching_paren(&chars("\")\", ')')")), Some(8));
    assert_eq!(find_matching_paren(&chars("\\) )")), Some(3));
    assert_eq!(find_matching_paren(&chars("\"a\\\"b)\" )")), Some(8));
    assert_eq!(find_matching_paren(&chars("(()")), None);
    assert_eq!(find_matching_paren(&chars("\")")), None);
    assert_eq!(find_matching_paren(&chars("")), None);
    assert_eq!(find_matching_paren(&chars("ж)")), Some(1));
}

#[test]
fn split_args_splits_at_top_level_commas() {
    assert_eq!(split_args(&chars("a, b,c")), vec!["a", "b", "c"]);
    assert_eq!(split_args(&chars("f(a, b), \"c, d\", 'e,f'")), vec!["f(a, b)", "\"c, d\"", "'e,f'"]);
    assert_eq!(split_args(&chars(" , a ,, b , ")), vec!["a", "b"]);
    assert_eq!(split_args(&chars("a\\,b, c")), vec!["a\\,b", "c"]);
    assert_eq!(split_args(&chars("a), b")), vec!["a), b"]);
    assert_eq!(split_args(&chars("a), (b, c")), vec!["a), (b", "c"]);
    assert!(split_args(&chars("")).is_empty());
    assert!(split_args(&chars("  ")).is_empty());
}

#[test]
fn unquote_resolves_escapes_in_quoted_values() {
    assert_eq!(unquote("  \"hello\"  "), "hello");
    assert_eq!(unquote("'hello'"), "hello");
    assert_eq!(unquote("hello"), "hello");
    assert_eq!(unquote("\"a\\\"b\""), "a\"b");
    assert_eq!(unquote("'a\\'b'"), "a'b");
    assert_eq!(unquote("\"a\\\\b\""), "a\\b");
    assert_eq!(unquote("\"a\\nb\\tc\""), "a\nb\tc");
    // an escaped backslash before an n becomes a line feed in the end
    assert_eq!(unquote("\"a\\\\nb\""), "a\nb");
    assert_eq!(unquote("\"mixed'"), "\"mixed'");
    assert_eq!(unquote("\""), "\"");
    assert_eq!(unquote("\"\""), "");
    assert_eq!(unquote("a\\nb"), "a\\nb");
    assert_eq!(unquote("\"привет\""), "привет");
    assert_eq!(unquote(""), "");
}

#[test]
fn replace_pair_goes_from_left_to_right() {
    assert_eq!(replace_pair(&chars("aaa"), 'a', 'a', 'b'), chars("ba"));
    assert_eq!(replace_pair(&chars("xabab"), 'a', 'b', 'c'), chars("xcc"));
    assert_eq!(replace_pair(&chars("a"), 'a', 'b', 'c'), chars("a"));
    assert_eq!(replace_pair(&chars(""), 'a', 'b', 'c'), chars(""));
}

#[test]
fn equals_sign_inside_a_string_names_nothing() {
    assert!(!eq_in_string(&chars("key=\"v\""), 3));
    assert!(eq_in_string(&chars("\"a=b\""), 2));
    assert!(eq_in_string(&chars("'a=b'"), 2));
    assert!(!eq_in_string(&chars("'a'=b"), 3));
    assert!(eq_in_string(&chars("\"a'=b"), 3));
    assert!(!eq_in_string(&chars("a=b"), 7));
    let (args, kwargs) = parse_arguments(&chars("\"a=b\", k = 'v' , plain"));
    assert_eq!(args, vec!["a=b", "plain"]);
    assert_eq!(kwargs, vec![("k".to_string(), "v".to_string())]);
}

#[test]
fn action_is_taken_from_the_first_line_that_has_one() {
    let parser = ToolCallParser::new(None);
    assert_eq!(parser.extract_action("ACTION:\n  ACTION:   go()  \r\nACTION: later()"), Some("go()".to_string()));
    assert_eq!(parser.extract_action("say ACTION: go()"), None);
    assert_eq!(parser.extract_action("ACTION:   "), None);
    assert_eq!(parser.extract_action(""), None);
    assert_eq!(parser.extract_action("one\ntwo\n"), None);
    assert_eq!(parser.extract_action("x\nACTION: last"), Some("last".to_string()));
    assert!(parser.is_action("say ACTION: go()"));
    assert!(!parser.is_action("say action: go()"));
    assert!(!parser.is_action(""));
}

#[test]
fn final_answer_follows_the_first_marker() {
    let parser = ToolCallParser::new(None);
    assert_eq!(
        parser.extract_final_answer("so FINAL_ANSWER:  42 \n FINAL_ANSWER: 43 "),
        Some("42 \n FINAL_ANSWER: 43".to_string())
    );
    assert_eq!(parser.extract_final_answer("FINAL_ANSWER:   "), None);
    assert_eq!(parser.extract_final_answer("no marker"), None);
    assert!(!parser.is_final_answer("FINAL ANSWER: 1"));
    assert!(parser.is_final_answer("xFINAL_ANSWER:"));
}
