use std::ops::Range;
use ugdb::completion::commands::parse_command_names;
use ugdb::completion::expression::{
    tokenize_expression, tokenize_expression_with_strings, CompletableExpression, ExpressionToken,
    ExpressionTokenType, TokenizeError,
};
use ugdb::completion::path::{completable_path, CompleterPath};
use ugdb::completion::{command_completion, complete_with, find_candidates, identifier_completion_request, CompletionState};
use ugdb::console::Console;

fn current_line(state: &CompletionState) -> String {
    let parts = state.current_line_parts();
    format!("{}{}{}", parts.0, parts.1, parts.2)
}

fn check_completion_state() {
    let mut state =
        CompletionState::new("ba)".to_owned(), 2, vec!["r".to_owned(), "z".to_owned()]);
    assert_eq!(current_line(&state), "bar)");
    state.select_next_option();
    assert_eq!(current_line(&state), "baz)");
    state.select_next_option();
    assert_eq!(current_line(&state), "ba)");
    state.select_next_option();
    assert_eq!(current_line(&state), "bar)");
    state.select_prev_option();
    assert_eq!(current_line(&state), "ba)");
}

fn check_completion_state_empty() {
    let mut state = CompletionState::new("ba)".to_owned(), 2, vec![]);
    assert_eq!(current_line(&state), "ba)");
    state.select_next_option();
    assert_eq!(current_line(&state), "ba)");
    state.select_next_option();
    assert_eq!(current_line(&state), "ba)");
    state.select_next_option();
    assert_eq!(current_line(&state), "ba)");
    state.select_prev_option();
    assert_eq!(current_line(&state), "ba)");
}

fn check_find_candidates() {
    assert_eq!(find_candidates("", &[]), Vec::<&str>::new());
    assert_eq!(find_candidates("foo", &[]), Vec::<&str>::new());
    assert_eq!(
        find_candidates("", &["foo".to_owned(), "bar".to_owned(), "baz".to_owned()]),
        vec!["foo", "bar", "baz"]
    );
    assert_eq!(
        find_candidates("ba", &["foo".to_owned(), "bar".to_owned(), "baz".to_owned()]),
        vec!["r", "z"]
    );
    assert_eq!(
        find_candidates("baf", &["foo".to_owned(), "bar".to_owned(), "baz".to_owned()]),
        Vec::<&str>::new()
    );
}

fn assert_eq_tokenize(
    tokenize: fn(&str) -> Result<Vec<ExpressionToken>, TokenizeError>,
    s: &str,
    v: Vec<(ExpressionTokenType, Range<usize>)>,
) {
    let expected = v
        .into_iter()
        .map(|(t, r)| ExpressionToken { ttype: t, pos: r })
        .collect::<Vec<_>>();
    let got = tokenize(s).unwrap();
    assert_eq!(got, expected);
}

fn check_tokenize_expression(
    tokenize: fn(&str) -> Result<Vec<ExpressionToken>, TokenizeError>,
    string_type: ExpressionTokenType,
) {
    assert_eq_tokenize(tokenize, "", Vec::new());
    assert_eq_tokenize(
        tokenize,
        "123 asdf",
        vec![(ExpressionTokenType::Atom, 0..3), (ExpressionTokenType::Atom, 4..8)],
    );
    assert_eq_tokenize(
        tokenize,
        " * * ,, .  ",
        vec![
            (ExpressionTokenType::Asterisk, 1..2),
            (ExpressionTokenType::Asterisk, 3..4),
            (ExpressionTokenType::Sep, 5..6),
            (ExpressionTokenType::Sep, 6..7),
            (ExpressionTokenType::Dot, 8..9),
        ],
    );
    assert_eq_tokenize(
        tokenize,
        "(  (][)",
        vec![
            (ExpressionTokenType::LParen, 0..1),
            (ExpressionTokenType::LParen, 3..4),
            (ExpressionTokenType::RBracket, 4..5),
            (ExpressionTokenType::LBracket, 5..6),
            (ExpressionTokenType::RParen, 6..7),
        ],
    );
    assert_eq_tokenize(
        tokenize,
        "< \"foo\"",
        vec![(ExpressionTokenType::Sep, 0..1), (string_type, 2..7)],
    );
    assert_eq_tokenize(
        tokenize,
        "-->",
        vec![
            (ExpressionTokenType::Sep, 0..1),
            (ExpressionTokenType::Sep, 1..2),
            (ExpressionTokenType::Sep, 2..3),
        ],
    );
    assert_eq_tokenize(
        tokenize,
        "->-",
        vec![(ExpressionTokenType::Arrow, 0..2), (ExpressionTokenType::Sep, 2..3)],
    );
    assert_eq_tokenize(
        tokenize,
        "foo->bar",
        vec![
            (ExpressionTokenType::Atom, 0..3),
            (ExpressionTokenType::Arrow, 3..5),
            (ExpressionTokenType::Atom, 5..8),
        ],
    );
    assert_eq!(tokenize(" asdf \" kldsj"), Err(TokenizeError::UnfinishedString));
}

fn assert_eq_completable_expression(s: &str, parent: &str, prefix: &str) {
    let got = CompletableExpression::from_str(s).unwrap();
    let expected = CompletableExpression { parent: parent.to_owned(), prefix: prefix.to_owned() };
    assert_eq!(got, expected);
}

#[test]
fn completion_test_completion_state() {
    check_completion_state();
}

#[test]
fn completion_test_completion_state_empty() {
    check_completion_state_empty();
}

#[test]
fn completion_test_find_candidates() {
    check_find_candidates();
}

#[test]
fn completion_test_tokenize_expression() {
    check_tokenize_expression(tokenize_expression_with_strings, ExpressionTokenType::String);
}

#[test]
fn completion_test_completable_expression() {
    assert_eq_completable_expression("", "", "");
    assert_eq_completable_expression("foo.bar", "foo", "bar");
    assert_eq_completable_expression("foo->bar", "*(foo)", "bar");
    assert_eq_completable_expression("(foo[2]->bar", "*(foo[2])", "bar");
    assert_eq_completable_expression("][foo(1,23).", "foo(1,23)", "");
    assert_eq_completable_expression("][foo(1,23)", "", "");
    assert_eq_completable_expression("foo + b", "", "b");
    assert_eq_completable_expression("\"ldkf\" f", "", "f");
    assert_eq_completable_expression("  foo", "", "foo");
}

#[test]
fn test_completable_path() {
    assert_eq!(completable_path(""), vec![""]);
    assert_eq!(completable_path("foo.bar.baz"), vec!["baz", "bar", "foo"]);
    assert_eq!(completable_path("(fdf(foo.bar.baz"), vec!["baz", "bar", "foo"]);
    assert_eq!(completable_path("(fdf(foo.bar.baz"), vec!["baz", "bar", "foo"]);
    assert_eq!(completable_path("(fdf(foo.bar.baz."), vec!["", "baz", "bar", "foo"]);
    assert_eq!(completable_path("aäöüß"), vec!["aäöüß"]);
    assert_eq!(completable_path("f🦀aäöüßz"), vec!["aäöüßz"]);
    assert_eq!(completable_path("f aäöüßz"), vec!["aäöüßz"]);
}

#[test]
fn test_completerpath() {
    assert_eq!(CompleterPath::from_str(""), CompleterPath { path: vec![], incomplete: "" });
    assert_eq!(
        CompleterPath::from_str("foo.bar.baz"),
        CompleterPath { path: vec!["foo", "bar"], incomplete: "baz" }
    );
    assert_eq!(
        CompleterPath::from_str("(fdf(foo.bar.baz"),
        CompleterPath { path: vec!["foo", "bar"], incomplete: "baz" }
    );
    assert_eq!(
        CompleterPath::from_str("(fdf(foo.bar.baz."),
        CompleterPath { path: vec!["foo", "bar", "baz"], incomplete: "" }
    );
}

#[test]
fn mod_test_completion_state() {
    check_completion_state();
}

#[test]
fn mod_test_completion_state_empty() {
    check_completion_state_empty();
}

#[test]
fn test_gdb_help_parser() {
    let input = "
tsave -- Save the trace data to a file.
while-stepping -- Specify single-stepping behavior at a tracepoint.

Command class: user-defined

myadder -- User-defined.

Unclassified commands

add-inferior -- Add a new inferior.
help, h -- Print list of commands.
function _any_caller_is -- Check all calling function's names.
        ";
    let got = parse_command_names(input);
    let expected = [
        "tsave",
        "while-stepping",
        "myadder",
        "add-inferior",
        "help",
        "h",
        "function _any_caller_is",
    ]
    .iter()
    .map(|s| s.to_string())
    .collect::<Vec<String>>();
    assert_eq!(got, expected);
}

#[test]
fn mod_test_find_candidates() {
    check_find_candidates();
}

#[test]
fn mod_test_tokenize_expression() {
    check_tokenize_expression(tokenize_expression, ExpressionTokenType::Atom);
}

#[test]
fn mod_test_completable_expression() {
    assert_eq_completable_expression("", "", "");
    assert_eq_completable_expression("foo.bar", "foo", "bar");
    assert_eq_completable_expression("foo->bar", "*(foo)", "bar");
    assert_eq_completable_expression("(foo[2]->bar", "*(foo[2])", "bar");
    assert_eq_completable_expression("][foo(1,23).", "foo(1,23)", "");
    assert_eq_completable_expression("][foo(1,23)", "", "");
    assert_eq_completable_expression("foo + b", "", "b");
    assert_eq_completable_expression("\"ldkf\" f", "", "f");
    assert_eq_completable_expression("  foo", "", "foo");
    assert_eq_completable_expression("foo ", "", "");
    assert_eq_completable_expression("f foo[2].f", "foo[2]", "f");
    assert_eq_completable_expression("f \"foo\"[2].f", "\"foo\"[2]", "f");
}

#[test]
fn completion_cycles_back_to_original_and_reverses() {
    let mut state = CompletionState::new("x".to_owned(), 1, vec!["a".to_owned()]);
    let before = current_line(&state);
    state.select_next_option();
    state.select_prev_option();
    assert_eq!(current_line(&state), before);
    state.select_prev_option();
    state.select_next_option();
    assert_eq!(current_line(&state), before);
    assert_eq!(state.current_option(), "a");
}

#[test]
fn completable_expression_checked_rejects_parent_after_its_end() {
    assert_eq!(CompletableExpression::from_str_checked("(."), None);
    assert_eq!(CompletableExpression::from_str_checked("+.f"), None);
    assert_eq!(
        CompletableExpression::from_str_checked("a.b"),
        Some(Ok(CompletableExpression { parent: "a".to_owned(), prefix: "b".to_owned() }))
    );
    assert_eq!(
        CompletableExpression::from_str_checked("\"a"),
        Some(Err(TokenizeError::UnfinishedString))
    );
}

#[test]
fn gdb_help_parser_handles_crlf_and_missing_separator() {
    let got = parse_command_names("run, r -- Start.\r\nno separator here\nstep --x");
    assert_eq!(got, vec!["run".to_owned(), "r".to_owned()]);
}

#[test]
fn completion_fails_only_on_unclosed_strings_and_ends_with_its_prefix() {
    for s in ["ä.", "a.bc", "foo->bar", "x[\"a.b\"].y", "(a + b).c", ""] {
        match CompletableExpression::from_str_checked(s) {
            Some(Ok(e)) => assert!(s.ends_with(&e.prefix), "{}", s),
            other => panic!("{}: {:?}", s, other),
        }
    }
    assert_eq!(CompletableExpression::from_str_checked("a.\"bc"), Some(Err(TokenizeError::UnfinishedString)));
    assert_eq!(CompletableExpression::from_str_checked("\"x\\\""), Some(Err(TokenizeError::UnfinishedString)));
    let e = CompletableExpression::from_str_checked("ä.b").unwrap().unwrap();
    assert_eq!((e.parent.as_str(), e.prefix.as_str()), ("ä", "b"));
}

#[test]
fn commands_and_identifiers_are_completed() {
    let commands: Vec<String> = ["print", "printf", "run"].iter().map(|s| s.to_string()).collect();
    let s = command_completion("pri x", 3, &commands);
    assert_eq!(s.current_line_parts(), ("pri", "nt", " x"));
    let s = complete_with("p foo.ba".to_owned(), 8, "ba", &["bar".to_owned(), "baz".to_owned(), "qux".to_owned()]);
    assert_eq!(s.current_line_parts(), ("p foo.ba", "r", ""));
    let e = identifier_completion_request("p foo.ba + 1", 8).unwrap();
    assert_eq!((e.parent.as_str(), e.prefix.as_str()), ("foo", "ba"));
    assert!(identifier_completion_request("p \"x", 4).is_none());
    assert!(identifier_completion_request("p +.", 4).is_none());
}

#[test]
fn console_shows_the_selected_completion() {
    let mut c = Console::new();
    assert!(!c.is_completing());
    for ch in "pri x".chars() {
        c.type_char(ch);
    }
    let state = CompletionState::new("pri x".to_owned(), 3, vec!["nt".to_owned(), "ntf".to_owned()]);
    c.start_completion(state);
    assert!(c.is_completing());
    assert_eq!(c.prompt_line().line().get(), "print x");
    assert_eq!(c.prompt_line().line().cursor_pos(), 5);
    c.cycle_completion(true);
    assert_eq!(c.prompt_line().line().get(), "printf x");
    assert_eq!(c.prompt_line().line().cursor_pos(), 6);
    c.cycle_completion(true);
    assert_eq!(c.prompt_line().line().get(), "pri x");
    assert_eq!(c.prompt_line().line().cursor_pos(), 3);
    c.cycle_completion(false);
    assert_eq!(c.prompt_line().line().get(), "printf x");
    c.type_char('!');
    assert!(!c.is_completing());
    assert_eq!(c.prompt_line().line().get(), "printf! x");
    c.end_completion();
    assert!(!c.is_completing());
}
