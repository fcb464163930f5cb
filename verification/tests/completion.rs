use codecrafters_shell::builtin::{Output, builtins};
use codecrafters_shell::command::{ExecutionMode, ShellCommand};
use codecrafters_shell::completer::{
    ShellHelper, complete_cmd, completion_request, ext_candidates, file_candidate, lex_less,
};

fn cmd(args: &[&str]) -> ShellCommand {
    ShellCommand {
        name: "complete".to_string(),
        args: args.iter().map(|s| s.to_string()).collect(),
        redirect: None,
        exec_mode: ExecutionMode::Foreground,
    }
}

fn run(helper: &mut ShellHelper, args: &[&str]) -> String {
    let mut out = Output::new();
    complete_cmd(helper, &cmd(args), &mut out);
    out.stdout
}

#[test]
fn register_get_remove() {
    let mut h = ShellHelper::new(builtins());
    assert_eq!(h.get_ext_completion("git"), None);
    h.register_ext_completion("git".to_string(), "/bin/gitcomp".to_string());
    assert_eq!(h.get_ext_completion("git"), Some("/bin/gitcomp"));
    h.register_ext_completion("git".to_string(), "/bin/other".to_string());
    assert_eq!(h.get_ext_completion("git"), Some("/bin/other"));
    h.register_ext_completion("ls".to_string(), "/bin/lscomp".to_string());
    h.remove_ext_completion(&"git".to_string());
    assert_eq!(h.get_ext_completion("git"), None);
    assert_eq!(h.get_ext_completion("ls"), Some("/bin/lscomp"));
    h.remove_ext_completion(&"nothing".to_string());
    assert_eq!(h.get_ext_completion("ls"), Some("/bin/lscomp"));
}

#[test]
fn complete_builtin_register_then_print() {
    let mut h = ShellHelper::new(builtins());
    assert_eq!(run(&mut h, &["-C", "/usr/bin/comp", "git"]), "");
    assert_eq!(run(&mut h, &["-p", "git"]), "complete -C '/usr/bin/comp' git\n");
    assert_eq!(run(&mut h, &["-r", "git"]), "");
    assert_eq!(run(&mut h, &["-p", "git"]), "complete: git: no completion specification\n");
}

#[test]
fn complete_builtin_usage_messages() {
    let mut h = ShellHelper::new(builtins());
    assert_eq!(run(&mut h, &[]), "The flag is required\n");
    assert_eq!(run(&mut h, &["-C", "/x"]), "usage: complete -C <path> <command>\n");
    assert_eq!(run(&mut h, &["-p"]), "usage: complete -p <command>\n");
    assert_eq!(run(&mut h, &["-r"]), "usage: complete -p <command>\n");
    assert_eq!(run(&mut h, &["-x", "a"]), "Invalid flag\n");
}

#[test]
fn candidates_are_sorted_and_distinct() {
    let h = ShellHelper::new(builtins());
    let names = vec![
        "echo".to_string(),
        "ed".to_string(),
        "exa".to_string(),
        "ls".to_string(),
        "ed".to_string(),
    ];
    let found = h.find_candidates("e", &names);
    let displays: Vec<&str> = found.iter().map(|c| c.display.as_str()).collect();
    assert_eq!(displays, vec!["echo", "ed", "exa", "exit"]);
    for c in &found {
        assert_eq!(c.replacement, format!("{} ", c.display));
    }
    let all = h.find_candidates("", &vec![]);
    let mut expected: Vec<&str> = builtins();
    expected.sort();
    let displays: Vec<&str> = all.iter().map(|c| c.display.as_str()).collect();
    assert_eq!(displays, expected);
    assert!(h.find_candidates("zz", &names).is_empty());
}

#[test]
fn order_is_string_order() {
    let words = ["", "a", "ab", "b", "B", "é", "aé", "a b", "zz", "ä"];
    for x in words {
        for y in words {
            let xv: Vec<char> = x.chars().collect();
            let yv: Vec<char> = y.chars().collect();
            assert_eq!(lex_less(&xv, &yv), x < y, "{x:?} {y:?}");
        }
    }
}

#[test]
fn request_for_the_first_word() {
    let r = completion_request("  ec");
    assert!(r.is_first_word);
    assert_eq!(r.start, 2);
    assert_eq!(r.prefix, "ec");
    assert_eq!(r.cmd_name, "ec");
    assert_eq!(r.prev_word, "");
}

#[test]
fn request_for_a_later_word() {
    let r = completion_request("git  checkout ma");
    assert!(!r.is_first_word);
    assert_eq!(r.start, 14);
    assert_eq!(r.prefix, "ma");
    assert_eq!(r.cmd_name, "git");
    assert_eq!(r.prev_word, "checkout");
    let r = completion_request("git ");
    assert!(!r.is_first_word);
    assert_eq!(r.prefix, "");
    assert_eq!(r.prev_word, "git");
    let r = completion_request("");
    assert!(r.is_first_word);
    assert_eq!(r.start, 0);
}

#[test]
fn candidates_from_a_completer_are_its_lines() {
    for text in ["one\ntwo\n", "one\r\ntwo", "a\n\nb\n", "", "\n", "x\r", "x\r\r\n"] {
        let got: Vec<String> = ext_candidates(text).into_iter().map(|c| c.display).collect();
        let expected: Vec<String> = text.lines().map(|l| l.to_string()).collect();
        assert_eq!(got, expected, "{text:?}");
    }
    let c = ext_candidates("main\n");
    assert_eq!(c[0].replacement, "main ");
}

#[test]
fn file_candidates() {
    let dir = file_candidate("src/".to_string());
    assert_eq!(dir.display, "src/");
    assert_eq!(dir.replacement, "src/");
    let file = file_candidate("main.rs".to_string());
    assert_eq!(file.display, "main.rs");
    assert_eq!(file.replacement, "main.rs ");
}
