use codecrafters_shell::builtin::Output;
use codecrafters_shell::command::{ExecutionMode, ShellCommand};
use codecrafters_shell::parser::tokenize;
use codecrafters_shell::vars::Vars;

fn token_expansion(line: &str, vars: &Vec<(String, String)>) -> String {
    let (_, tokens) = tokenize(line).unwrap();
    tokens[0].expand(vars)
}

fn declare(vars: &mut Vars, args: &[&str]) -> String {
    let c = ShellCommand {
        name: "declare".to_string(),
        args: args.iter().map(|s| s.to_string()).collect(),
        redirect: None,
        exec_mode: ExecutionMode::Foreground,
    };
    let mut out = Output::new();
    vars.declare_cmd(&c, &mut out);
    out.stdout
}

#[test]
fn unquoted_variables_expand() {
    let vars = vec![("HOME".to_string(), "/home/u".to_string()), ("X".to_string(), "1".to_string())];
    assert_eq!(token_expansion("$HOME", &vars), "/home/u");
    // Everything after a `$`, up to the next `$`, is the name.
    assert_eq!(token_expansion("$HOME/bin", &vars), "HOME/bin");
    assert_eq!(token_expansion("dir$HOME", &vars), "dir/home/u");
    assert_eq!(token_expansion("a$X$X", &vars), "a11");
    assert_eq!(token_expansion("plain", &vars), "plain");
    assert_eq!(token_expansion("$NOPE", &vars), "NOPE");
    assert_eq!(token_expansion("$", &vars), "");
    assert_eq!(token_expansion("x$$X", &vars), "x1");
}

#[test]
fn quoted_text_is_not_expanded() {
    let vars = vec![("X".to_string(), "1".to_string())];
    assert_eq!(token_expansion("'$X'\"$X\"$X", &vars), "$X$X1");
}

#[test]
fn declare_and_display() {
    let mut v = Vars::new();
    assert_eq!(declare(&mut v, &["name=value"]), "");
    assert_eq!(declare(&mut v, &["-p", "name"]), "declare -- name=\"value\"\n");
    assert_eq!(declare(&mut v, &["name=a=b"]), "");
    assert_eq!(declare(&mut v, &["-p", "name"]), "declare -- name=\"a=b\"\n");
    assert_eq!(declare(&mut v, &["-p", "other"]), "declare: other: not found\n");
}

#[test]
fn declared_variables_expand() {
    let mut v = Vars::new();
    declare(&mut v, &["GREETING=hi"]);
    assert_eq!(token_expansion("say$GREETING", v.pairs()), "sayhi");
}

#[test]
fn declare_errors() {
    let mut v = Vars::new();
    assert_eq!(declare(&mut v, &[]), "Usage: declare [-p] [name]\n");
    assert_eq!(declare(&mut v, &["-p"]), "Usage: declare [-p] [name]\n");
    assert_eq!(declare(&mut v, &["novalue"]), "Usage: declare [-p] [name]\n");
    assert_eq!(
        declare(&mut v, &["1x=3"]),
        "declare: `1x=3': not a valid identifier\n"
    );
    assert_eq!(declare(&mut v, &["=3"]), "declare: `=3': not a valid identifier\n");
}

#[test]
fn variable_names() {
    let v = Vars::new();
    for name in ["a", "_", "A_1", "abc9"] {
        assert!(v.validate_var_name(name), "{name}");
    }
    for name in ["", "9a", "a-b", "é", "a b"] {
        assert!(!v.validate_var_name(name), "{name}");
    }
}
