use codecrafters_shell::builtin::Output;
use codecrafters_shell::jobs::{JobStatus, Jobs};

fn line(id: u32, marker: &str, status: &str, command: &str) -> String {
    format!("[{}]{marker}  {:>24} {}\n", id, status, command)
}

#[test]
fn ids_are_the_smallest_free_numbers() {
    let mut jobs = Jobs::new();
    assert_eq!(jobs.add(100, "sleep 1".to_string()), 1);
    assert_eq!(jobs.add(101, "sleep 2".to_string()), 2);
    assert_eq!(jobs.add(102, "sleep 3".to_string()), 3);
    let mut out = Output::new();
    jobs.reap(&vec![2], &mut out);
    assert_eq!(jobs.len(), 2);
    assert_eq!(jobs.add(103, "sleep 4".to_string()), 2);
    assert_eq!(jobs.add(104, "sleep 5".to_string()), 4);
}

#[test]
fn list_marks_newest_with_plus_and_previous_with_minus() {
    let mut jobs = Jobs::new();
    jobs.add(1, "sleep 10".to_string());
    jobs.add(2, "sleep 20".to_string());
    jobs.add(3, "sleep 30".to_string());
    let mut out = Output::new();
    jobs.list(&vec![], &mut out);
    let expected = line(1, " ", "Running", "sleep 10")
        + &line(2, "-", "Running", "sleep 20")
        + &line(3, "+", "Running", "sleep 30");
    assert_eq!(out.stdout, expected);
    assert_eq!(jobs.len(), 3);
}

#[test]
fn list_reports_and_removes_finished_jobs() {
    let mut jobs = Jobs::new();
    jobs.add(1, "sleep 10".to_string());
    jobs.add(2, "echo hi".to_string());
    let mut out = Output::new();
    jobs.list(&vec![2], &mut out);
    assert_eq!(
        out.stdout,
        line(1, "-", "Running", "sleep 10") + &line(2, "+", "Done", "echo hi")
    );
    assert_eq!(jobs.len(), 1);
    let mut again = Output::new();
    jobs.list(&vec![], &mut again);
    assert_eq!(again.stdout, line(1, "+", "Running", "sleep 10"));
}

#[test]
fn reap_reports_only_finished_jobs() {
    let mut jobs = Jobs::new();
    jobs.add(1, "a".to_string());
    jobs.add(2, "b".to_string());
    jobs.add(3, "c".to_string());
    let mut out = Output::new();
    jobs.reap(&vec![1, 3, 99], &mut out);
    assert_eq!(out.stdout, line(1, " ", "Done", "a") + &line(3, "+", "Done", "c"));
    assert_eq!(jobs.len(), 1);
    let mut quiet = Output::new();
    jobs.reap(&vec![], &mut quiet);
    assert_eq!(quiet.stdout, "");
}

#[test]
fn status_text() {
    assert_eq!(JobStatus::Running.as_str(), "Running");
    assert_eq!(JobStatus::Done.as_str(), "Done");
}

#[test]
fn large_job_numbers_are_written_in_full() {
    let mut jobs = Jobs::new();
    for k in 0..12 {
        jobs.add(k, format!("job{k}"));
    }
    let mut out = Output::new();
    jobs.reap(&vec![12], &mut out);
    assert_eq!(out.stdout, line(12, "+", "Done", "job11"));
}
