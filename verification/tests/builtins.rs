use codecrafters_shell::builtin::{
    Builtin, Output, builtin_kind, builtins, echo_cmd, is_built_in, is_pipeline_built_in,
    pwd_cmd, type_cmd, type_line,
};
use codecrafters_shell::command::{ExecutionMode, ShellCommand};

fn cmd(name: &str, args: &[&str]) -> ShellCommand {
    ShellCommand {
        name: name.to_string(),
        args: args.iter().map(|s| s.to_string()).collect(),
        redirect: None,
        exec_mode: ExecutionMode::Foreground,
    }
}

#[test]
fn builtin_names() {
    assert_eq!(builtins(), vec!["echo", "exit", "type", "pwd", "complete", "jobs", "cd", "history"]);
    for name in builtins() {
        assert!(is_built_in(name));
    }
    for name in ["ls", "", "Echo", "echo "] {
        assert!(!is_built_in(name));
    }
}

#[test]
fn pipeline_builtins_are_builtins() {
    for name in ["echo", "type", "pwd", "history"] {
        assert!(is_pipeline_built_in(name));
        assert!(is_built_in(name));
    }
    for name in ["exit", "complete", "jobs", "cd", "ls"] {
        assert!(!is_pipeline_built_in(name));
    }
}

#[test]
fn builtin_kinds() {
    assert_eq!(builtin_kind("echo"), Some(Builtin::Echo));
    assert_eq!(builtin_kind("exit"), Some(Builtin::Exit));
    assert_eq!(builtin_kind("type"), Some(Builtin::Type));
    assert_eq!(builtin_kind("pwd"), Some(Builtin::Pwd));
    assert_eq!(builtin_kind("complete"), Some(Builtin::Complete));
    assert_eq!(builtin_kind("jobs"), Some(Builtin::Jobs));
    assert_eq!(builtin_kind("cd"), Some(Builtin::Cd));
    assert_eq!(builtin_kind("history"), Some(Builtin::History));
    assert_eq!(builtin_kind("cat"), None);
}

#[test]
fn output_starts_empty() {
    let o = Output::new();
    assert_eq!(o.stdout, "");
    assert_eq!(o.stderr, "");
}

#[test]
fn echo_joins_arguments() {
    let mut o = Output::new();
    echo_cmd(&cmd("echo", &["hello", "big  world"]), &mut o);
    assert_eq!(o.stdout, "hello big  world\n");
    echo_cmd(&cmd("echo", &[]), &mut o);
    assert_eq!(o.stdout, "hello big  world\n\n");
    assert_eq!(o.stderr, "");
}

#[test]
fn pwd_writes_the_directory() {
    let mut o = Output::new();
    pwd_cmd("/home/user", &mut o);
    assert_eq!(o.stdout, "/home/user\n");
}

#[test]
fn type_lines() {
    assert_eq!(type_line("echo", None), "echo is a shell builtin\n");
    assert_eq!(type_line("echo", Some("/bin/echo".to_string())), "echo is a shell builtin\n");
    assert_eq!(type_line("ls", Some("/bin/ls".to_string())), "ls is /bin/ls\n");
    assert_eq!(type_line("nosuch", None), "nosuch: not found\n");
}

#[test]
fn type_of_builtins_and_missing_commands() {
    let mut o = Output::new();
    type_cmd(&cmd("type", &["cd", "no-such-command-xyz", "history"]), &mut o);
    assert_eq!(
        o.stdout,
        "cd is a shell builtin\nno-such-command-xyz: not found\nhistory is a shell builtin\n"
    );
}
