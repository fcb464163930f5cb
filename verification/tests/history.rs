use codecrafters_shell::builtin::Output;
use codecrafters_shell::command::{ExecutionMode, ShellCommand};
use codecrafters_shell::history::{
    HistoryAction, HistoryBaseline, history_action, history_text, list_history, parse_usize, requested_entries,
};

fn cmd(args: &[&str]) -> ShellCommand {
    ShellCommand {
        name: "history".to_string(),
        args: args.iter().map(|s| s.to_string()).collect(),
        redirect: None,
        exec_mode: ExecutionMode::Foreground,
    }
}

fn entries(v: &[&str]) -> Vec<String> {
    v.iter().map(|s| s.to_string()).collect()
}

#[test]
fn actions() {
    assert!(matches!(history_action(&cmd(&["-r", "f"])), HistoryAction::Read(p) if p == "f"));
    assert!(matches!(history_action(&cmd(&["-w", "f"])), HistoryAction::Write(p) if p == "f"));
    assert!(matches!(history_action(&cmd(&["-a", "f"])), HistoryAction::Append(p) if p == "f"));
    assert!(matches!(history_action(&cmd(&["-r"])), HistoryAction::Usage(m) if m == "usage: history -r <file>"));
    assert!(matches!(history_action(&cmd(&["-w"])), HistoryAction::Usage(m) if m == "usage: history -w <file>"));
    assert!(matches!(history_action(&cmd(&["-a"])), HistoryAction::Usage(m) if m == "usage: history -w <file>"));
    assert!(matches!(history_action(&cmd(&[])), HistoryAction::List));
    assert!(matches!(history_action(&cmd(&["3"])), HistoryAction::List));
}

#[test]
fn parse_usize_agrees_with_std() {
    let inputs = [
        "0", "7", "+7", "-7", "", "+", "12a", " 1", "007", "18446744073709551615",
        "18446744073709551616", "99999999999999999999999", "+0", "٣",
    ];
    for s in inputs {
        assert_eq!(parse_usize(s), s.parse::<usize>().ok(), "{s:?}");
    }
}

#[test]
fn requested_entries_defaults_to_all() {
    assert_eq!(requested_entries(&cmd(&[]), 5), 5);
    assert_eq!(requested_entries(&cmd(&["2"]), 5), 2);
    assert_eq!(requested_entries(&cmd(&["x"]), 5), 5);
}

#[test]
fn listing_numbers_the_last_entries() {
    let e = entries(&["ls", "pwd", "echo hi"]);
    let mut out = Output::new();
    list_history(&e, 2, &mut out);
    assert_eq!(out.stdout, format!("{:>5}  pwd\n{:>5}  echo hi\n", 2, 3));
    let mut all = Output::new();
    list_history(&e, 3, &mut all);
    assert_eq!(all.stdout, "    1  ls\n    2  pwd\n    3  echo hi\n");
    let mut none = Output::new();
    list_history(&e, 0, &mut none);
    assert_eq!(none.stdout, "");
}

#[test]
fn wide_numbers_are_not_cut() {
    let e: Vec<String> = (0..123456).map(|i| format!("c{i}")).collect();
    let mut out = Output::new();
    list_history(&e, 1, &mut out);
    assert_eq!(out.stdout, "123456  c123455\n");
}

#[test]
fn file_text() {
    let e = entries(&["a", "b c", "d"]);
    assert_eq!(history_text(&e, 0), "a\nb c\nd\n");
    assert_eq!(history_text(&e, 2), "d\n");
    assert_eq!(history_text(&e, 3), "");
    assert_eq!(history_text(&e, 10), "");
}

#[test]
fn appending_in_steps_writes_each_entry_once() {
    let mut e = entries(&["a", "b"]);
    let first = history_text(&e, 0);
    let baseline = e.len();
    e.push("c".to_string());
    e.push("d".to_string());
    let second = history_text(&e, baseline);
    assert_eq!(first + &second, history_text(&e, 0));
    assert_eq!(second, "c\nd\n");
}

#[test]
fn baseline_tracks_saved_entries() {
    let mut b = HistoryBaseline::new();
    let mut e = entries(&["a", "b"]);
    assert_eq!(b.unsaved_text(&e), "a\nb\n");
    assert!(b.mark_saved(e.len()));
    assert_eq!(b.saved(), 2);
    assert!(!b.mark_saved(1));
    assert_eq!(b.saved(), 2);
    assert_eq!(b.unsaved_text(&e), "");
    e.push("c".to_string());
    assert_eq!(b.unsaved_text(&e), "c\n");
}
