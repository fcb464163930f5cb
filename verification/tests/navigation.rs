use codecrafters_shell::cd::{CdPlan, cd_plan, join_path};
use codecrafters_shell::command::{ExecutionMode, ShellCommand};

fn cd(args: &[&str]) -> ShellCommand {
    ShellCommand {
        name: "cd".to_string(),
        args: args.iter().map(|s| s.to_string()).collect(),
        redirect: None,
        exec_mode: ExecutionMode::Foreground,
    }
}

fn go(plan: CdPlan) -> String {
    match plan {
        CdPlan::Go(p) => p,
        other => panic!("unexpected {:?}", other),
    }
}

#[test]
fn join_agrees_with_path_join() {
    let cases = [("/a", "b"), ("/a/", "b"), ("/a", "/etc"), ("", "b"), ("/a", ""), ("a/b", "../c")];
    for (base, path) in cases {
        let expected = std::path::Path::new(base).join(path).display().to_string();
        assert_eq!(join_path(base, path), expected, "{base:?} {path:?}");
    }
}

#[test]
fn relative_and_absolute_destinations() {
    assert_eq!(go(cd_plan(&cd(&["src"]), "/work", None)), "/work/src");
    assert_eq!(go(cd_plan(&cd(&["/tmp"]), "/work", None)), "/tmp");
}

#[test]
fn home_destinations() {
    let home = Some("/home/u".to_string());
    assert_eq!(go(cd_plan(&cd(&[]), "/work", home.clone())), "/home/u/");
    assert_eq!(go(cd_plan(&cd(&[""]), "/work", home.clone())), "/home/u/");
    assert_eq!(go(cd_plan(&cd(&["~"]), "/work", home.clone())), "/home/u/");
    assert_eq!(go(cd_plan(&cd(&["~//docs"]), "/work", home.clone())), "/home/u/docs");
    assert!(matches!(cd_plan(&cd(&["~/x"]), "/work", None), CdPlan::NoHome));
}

#[test]
fn too_many_arguments() {
    assert!(matches!(cd_plan(&cd(&["a", "b"]), "/work", None), CdPlan::Usage));
}
