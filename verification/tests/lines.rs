use codecrafters_shell::command::ExecutionMode;
use codecrafters_shell::pipeline;
use codecrafters_shell::command::ShellCommand;
use codecrafters_shell::shell::{StageKind, Step, plan_command, plan_line, plan_stages};
use codecrafters_shell::parser::{parse_pipeline, tokenize};

#[test]
fn blank_line_is_skipped() {
    assert!(matches!(plan_line(""), Step::Skip));
    assert!(matches!(plan_line(" \t "), Step::Skip));
    assert!(matches!(plan_line("'unclosed"), Step::Skip));
}

#[test]
fn leftover_text_is_an_error() {
    match plan_line("echo 'abc") {
        Step::Error(m) => assert_eq!(m, "Couldn't parse the entire input, remaining portion:  'abc"),
        other => panic!("unexpected {:?}", other),
    }
}

#[test]
fn parse_errors_and_empty_pipelines() {
    match plan_line("echo >") {
        Step::Error(m) => {
            assert_eq!(m, "Error parsing command: trying to redirect stdout to an empty file")
        }
        other => panic!("unexpected {:?}", other),
    }
    match plan_line(" | ") {
        Step::Error(m) => assert_eq!(m, "Couldn't parse the input to a valid pipeline of commands"),
        other => panic!("unexpected {:?}", other),
    }
}

#[test]
fn builtins_and_pipelines() {
    match plan_line("  echo hi  ") {
        Step::Builtin(c) => {
            assert_eq!(c.name, "echo");
            assert_eq!(c.args, vec!["hi"]);
        }
        other => panic!("unexpected {:?}", other),
    }
    match plan_line("echo a | wc") {
        Step::Pipeline(p) => assert_eq!(p.commands.len(), 2),
        other => panic!("unexpected {:?}", other),
    }
}

#[test]
fn unknown_command() {
    match plan_line("no-such-command-xyz arg") {
        Step::Say(m) => assert_eq!(m, "no-such-command-xyz: command not found\n"),
        other => panic!("unexpected {:?}", other),
    }
}

#[test]
fn external_command_keeps_its_mode() {
    match plan_line("sh -c true &") {
        Step::External(c, path, mode) => {
            assert_eq!(c.name, "sh");
            assert_eq!(c.exec_mode, ExecutionMode::Background);
            assert_eq!(mode, pipeline::ExecutionMode::Background);
            assert!(path.ends_with("sh"));
        }
        Step::Say(m) => assert_eq!(m, "sh: command not found\n"),
        other => panic!("unexpected {:?}", other),
    }
}

#[test]
fn stages_of_a_pipeline() {
    let (_, tokens) = tokenize("echo a | no-such-command-xyz").unwrap();
    let p = parse_pipeline(&tokens).unwrap();
    assert_eq!(plan_stages(&p).unwrap_err(), "no-such-command-xyz: command not found");
    let (_, tokens) = tokenize("echo a | type b | pwd").unwrap();
    let p = parse_pipeline(&tokens).unwrap();
    let kinds = plan_stages(&p).unwrap();
    assert_eq!(kinds.len(), 3);
    assert!(kinds.iter().all(|k| matches!(k, StageKind::Builtin)));
}

#[test]
fn one_command_steps() {
    let make = |name: &str| ShellCommand {
        name: name.to_string(),
        args: vec!["x".to_string()],
        redirect: None,
        exec_mode: ExecutionMode::Foreground,
    };
    match plan_command(make("pwd"), pipeline::ExecutionMode::Foreground, Some("/bin/pwd".to_string())) {
        Step::Builtin(c) => assert_eq!(c.name, "pwd"),
        other => panic!("unexpected {:?}", other),
    }
    match plan_command(make("ls"), pipeline::ExecutionMode::Background, Some("/bin/ls".to_string())) {
        Step::External(c, path, mode) => {
            assert_eq!(c.name, "ls");
            assert_eq!(path, "/bin/ls");
            assert_eq!(mode, pipeline::ExecutionMode::Background);
        }
        other => panic!("unexpected {:?}", other),
    }
    match plan_command(make("ls"), pipeline::ExecutionMode::Foreground, None) {
        Step::Say(m) => assert_eq!(m, "ls: command not found\n"),
        other => panic!("unexpected {:?}", other),
    }
}
