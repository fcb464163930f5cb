use codecrafters_shell::command::{ExecutionMode, Redirect, ShellCommand};
use codecrafters_shell::parser::primitives::{
    match_until_char, match_until_pred, match_until_pred_with_escape,
};
use codecrafters_shell::parser::{parse_command, parse_pipeline, tokenize};
use codecrafters_shell::shell::{stage_kinds, StageKind};

fn chars(s: &str) -> Vec<char> {
    s.chars().collect()
}

#[test]
fn printed_command_reads_back() {
    let c = ShellCommand {
        name: "grep".to_string(),
        args: vec!["-n".to_string(), "a|b".to_string()],
        redirect: Some(Redirect::AppendStderr("err.txt".to_string())),
        exec_mode: ExecutionMode::Background,
    };
    let text = c.to_string();
    assert_eq!(text, "grep -n a|b 2>> err.txt");
    let (rest, tokens) = tokenize(&text).unwrap();
    assert_eq!(rest, "");
    assert_eq!(tokens.len(), 5);
    let back = parse_command(&tokens).unwrap();
    assert_eq!(back.name, "grep");
    assert_eq!(back.args, vec!["-n", "a|b"]);
    assert!(matches!(back.redirect, Some(Redirect::AppendStderr(ref f)) if f == "err.txt"));
    assert_eq!(back.exec_mode, ExecutionMode::Foreground);
}

#[test]
fn printed_command_without_redirect_reads_back() {
    let c = ShellCommand {
        name: "ls".to_string(),
        args: vec![],
        redirect: None,
        exec_mode: ExecutionMode::Foreground,
    };
    let text = c.to_string();
    let (rest, tokens) = tokenize(&text).unwrap();
    assert_eq!(rest, "");
    let back = parse_command(&tokens).unwrap();
    assert_eq!(back.name, "ls");
    assert!(back.args.is_empty());
    assert!(back.redirect.is_none());
}

fn ends_word(c: char) -> bool {
    c.is_whitespace() || c == '"' || c == '\''
}

#[test]
fn escaped_scan_without_backslash_is_plain() {
    let input = chars("abc def");
    assert_eq!(
        match_until_pred_with_escape(&input, 0, ends_word, |_| true),
        Ok((3, "abc".to_string()))
    );
    assert_eq!(match_until_pred(&input, 0, ends_word), Ok((3, "abc".to_string())));
    let input = chars("ab\"c");
    assert_eq!(
        match_until_pred_with_escape(&input, 0, |c| c == '"', |c| c == '"'),
        Ok((2, "ab".to_string()))
    );
    assert_eq!(match_until_pred(&input, 0, |c| c == '"'), Ok((2, "ab".to_string())));
    let input = chars("x'y z");
    assert_eq!(
        match_until_pred_with_escape(&input, 0, ends_word, |_| true),
        Ok((1, "x".to_string()))
    );
    let input = chars("plain");
    assert_eq!(
        match_until_pred_with_escape(&input, 0, |c| c == '"', |_| false),
        Ok((5, "plain".to_string()))
    );
    assert_eq!(match_until_pred(&input, 0, |c| c == '"'), Ok((5, "plain".to_string())));
}

#[test]
fn escaped_stop_character_does_not_stop() {
    let input = chars("a\\;b\\qc;d");
    assert_eq!(
        match_until_pred_with_escape(&input, 0, |c| c == ';', |c| c == ';'),
        Ok((7, "a;b\\qc".to_string()))
    );
    assert_eq!(input[7], ';');
}

#[test]
fn escaped_scan_edges() {
    let input = chars("");
    assert_eq!(match_until_pred_with_escape(&input, 0, |c| c == ';', |_| true), Err(0));
    assert_eq!(match_until_pred(&input, 0, |c| c == ';'), Err(0));
    let input = chars("ab\\");
    assert_eq!(
        match_until_pred_with_escape(&input, 0, |c| c == ';', |_| true),
        Ok((3, "ab\\".to_string()))
    );
    let input = chars("x;y");
    assert_eq!(match_until_pred_with_escape(&input, 1, |c| c == ';', |_| true), Ok((1, String::new())));
    assert_eq!(match_until_pred(&input, 1, |c| c == ';'), Ok((1, String::new())));
    assert_eq!(match_until_char(&input, 0, ';'), Ok((1, "x".to_string())));
    assert_eq!(match_until_pred(&input, 3, |c| c == ';'), Err(3));
}

#[test]
fn expansion_without_dollar_keeps_text() {
    let vars = vec![("b".to_string(), "1".to_string())];
    let (_, tokens) = tokenize("a'$b'\"x\"").unwrap();
    assert_eq!(tokens.len(), 1);
    assert_eq!(tokens[0].expand(&vars), tokens[0].to_string());
    assert_eq!(tokens[0].expand(&vars), "a$bx");
}

#[test]
fn stage_kinds_take_search_results() {
    let (_, tokens) = tokenize("echo a | foo | bar").unwrap();
    let p = parse_pipeline(&tokens).unwrap();
    let found = vec![None, Some("/x/foo".to_string()), Some("/y/bar".to_string())];
    let kinds = stage_kinds(&p, &found).unwrap();
    assert_eq!(kinds.len(), 3);
    assert!(matches!(kinds[0], StageKind::Builtin));
    assert!(matches!(kinds[1], StageKind::External(ref path) if path == "/x/foo"));
    assert!(matches!(kinds[2], StageKind::External(ref path) if path == "/y/bar"));
    let found = vec![None, Some("/x/foo".to_string()), None];
    assert_eq!(stage_kinds(&p, &found).unwrap_err(), "bar: command not found");
    let found = vec![None, None, None];
    assert_eq!(stage_kinds(&p, &found).unwrap_err(), "foo: command not found");
}
