use codecrafters_shell::command::{ExecutionMode, Redirect, ShellCommand};
use codecrafters_shell::parser::{is_redirect_token, parse_command, parse_pipeline, tokenize};
use codecrafters_shell::pipeline::{self, Pipeline};

fn command(line: &str) -> Result<ShellCommand, String> {
    let (rest, tokens) = tokenize(line).unwrap();
    assert_eq!(rest, "");
    parse_command(&tokens)
}

fn pipeline_of(line: &str) -> Result<Pipeline, String> {
    let (rest, tokens) = tokenize(line).unwrap();
    assert_eq!(rest, "");
    parse_pipeline(&tokens)
}

const MISSING_FILE: &str = "Error parsing command: trying to redirect stdout to an empty file";

#[test]
fn name_and_arguments() {
    let c = command("ls -l /tmp").unwrap();
    assert_eq!(c.name, "ls");
    assert_eq!(c.args, vec!["-l", "/tmp"]);
    assert!(c.redirect.is_none());
    assert_eq!(c.exec_mode, ExecutionMode::Foreground);
}

#[test]
fn redirect_operators() {
    let cases = [
        ("echo a > f", "Stdout"),
        ("echo a 1> f", "Stdout"),
        ("echo a 2> f", "Stderr"),
        ("echo a >> f", "AppendStdout"),
        ("echo a 1>> f", "AppendStdout"),
        ("echo a 2>> f", "AppendStderr"),
    ];
    for (line, kind) in cases {
        let c = command(line).unwrap();
        assert_eq!(c.name, "echo");
        assert_eq!(c.args, vec!["a"]);
        let got = match c.redirect.unwrap() {
            Redirect::Stdout(f) => ("Stdout", f),
            Redirect::Stderr(f) => ("Stderr", f),
            Redirect::AppendStdout(f) => ("AppendStdout", f),
            Redirect::AppendStderr(f) => ("AppendStderr", f),
        };
        assert_eq!(got, (kind, "f".to_string()), "{line}");
    }
}

#[test]
fn redirect_may_come_first_and_later_one_wins() {
    let c = command("> out echo a 2> err b").unwrap();
    assert_eq!(c.name, "echo");
    assert_eq!(c.args, vec!["a", "b"]);
    assert!(matches!(c.redirect, Some(Redirect::Stderr(ref f)) if f == "err"));
}

#[test]
fn redirect_without_file_is_an_error() {
    assert_eq!(command("echo a >").unwrap_err(), MISSING_FILE);
    assert_eq!(command("echo a > b 2>>").unwrap_err(), MISSING_FILE);
}

#[test]
fn redirect_takes_an_operator_as_its_file() {
    let c = command("echo > >").unwrap();
    assert!(matches!(c.redirect, Some(Redirect::Stdout(ref f)) if f == ">"));
}

#[test]
fn trailing_ampersand_runs_in_background() {
    let c = command("sleep 5 &").unwrap();
    assert_eq!(c.name, "sleep");
    assert_eq!(c.args, vec!["5"]);
    assert_eq!(c.exec_mode, ExecutionMode::Background);
    let quoted = command("sleep 5 '&'").unwrap();
    assert_eq!(quoted.args, vec!["5", "&"]);
    assert_eq!(quoted.exec_mode, ExecutionMode::Foreground);
    let middle = command("a & b").unwrap();
    assert_eq!(middle.args, vec!["&", "b"]);
    assert_eq!(middle.exec_mode, ExecutionMode::Foreground);
}

#[test]
fn no_tokens_make_an_empty_command() {
    let c = parse_command(&[]).unwrap();
    assert_eq!(c.name, "");
    assert!(c.args.is_empty());
}

#[test]
fn redirect_tokens() {
    for t in [">", "1>", "2>", ">>", "1>>", "2>>"] {
        assert!(is_redirect_token(t));
    }
    for t in ["", "<", "3>", ">>>", "> "] {
        assert!(!is_redirect_token(t));
    }
}

#[test]
fn command_is_written_back() {
    assert_eq!(command("echo  a   b").unwrap().to_string(), "echo a b");
    assert_eq!(command("cat x 1> out").unwrap().to_string(), "cat x > out");
    assert_eq!(command("cat x 2> e").unwrap().to_string(), "cat x 2> e");
    assert_eq!(command("cat x 1>> o").unwrap().to_string(), "cat x >> o");
    assert_eq!(command("cat 2>> e").unwrap().to_string(), "cat 2>> e");
    assert_eq!(command("sleep 10 &").unwrap().to_string(), "sleep 10");
    assert_eq!(command("echo 'a b'").unwrap().to_string(), "echo a b");
}

#[test]
fn pipeline_splits_on_bare_bars() {
    let p = pipeline_of("cat f | wc -l | head").unwrap();
    let names: Vec<&str> = p.commands.iter().map(|c| c.name.as_str()).collect();
    assert_eq!(names, vec!["cat", "wc", "head"]);
    assert_eq!(p.commands[1].args, vec!["-l"]);
    assert_eq!(p.exec_mode, pipeline::ExecutionMode::Foreground);
}

#[test]
fn quoted_or_glued_bars_do_not_split() {
    let p = pipeline_of("echo '|' a|b").unwrap();
    assert_eq!(p.commands.len(), 1);
    assert_eq!(p.commands[0].args, vec!["|", "a|b"]);
}

#[test]
fn empty_segments_are_dropped() {
    let p = pipeline_of("| a | | b |").unwrap();
    let names: Vec<&str> = p.commands.iter().map(|c| c.name.as_str()).collect();
    assert_eq!(names, vec!["a", "b"]);
    assert_eq!(pipeline_of("|").unwrap().commands.len(), 0);
}

#[test]
fn pipeline_background_follows_its_last_command() {
    assert_eq!(pipeline_of("sleep 1 &").unwrap().exec_mode, pipeline::ExecutionMode::Background);
    assert_eq!(pipeline_of("a | b &").unwrap().exec_mode, pipeline::ExecutionMode::Background);
    assert_eq!(pipeline_of("a & | b").unwrap().exec_mode, pipeline::ExecutionMode::Foreground);
}

#[test]
fn pipeline_segment_error_is_reported() {
    assert_eq!(pipeline_of("a > | b").unwrap_err(), MISSING_FILE);
}

#[test]
fn pipeline_new_and_add_command() {
    let mut p = Pipeline::new();
    assert!(p.commands.is_empty());
    assert_eq!(p.exec_mode, pipeline::ExecutionMode::Foreground);
    p.add_command(command("ls").unwrap());
    p.add_command(command("wc").unwrap());
    let names: Vec<&str> = p.commands.iter().map(|c| c.name.as_str()).collect();
    assert_eq!(names, vec!["ls", "wc"]);
}
