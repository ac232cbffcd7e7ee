use slurm_monitor::logtail::{
    build_stdout_path_command, build_tail_command, parse_stderr_path, parse_stdout_path,
    resolve_log_path, stderr_tail_detail, tail_step, TailAction, TailState,
};

const OUT: &str =
    "JobId=42 JobName=train\n   StdOut=/home/u/slurm-42.out\n   StdErr=/home/u/slurm-42.err\n";

#[test]
fn parses_stdout_path() {
    assert_eq!(parse_stdout_path(OUT), Some("/home/u/slurm-42.out".to_string()));
}

#[test]
fn parses_stderr_path() {
    assert_eq!(parse_stderr_path(OUT), Some("/home/u/slurm-42.err".to_string()));
}

#[test]
fn missing_paths_give_the_stream_specific_error() {
    assert_eq!(resolve_log_path("JobId=1\n", "stderr"), Err("could not resolve StdErr path".to_string()));
    assert_eq!(resolve_log_path("JobId=1\n", "stdout"), Err("could not resolve StdOut path".to_string()));
    assert_eq!(resolve_log_path(OUT, "anything"), Ok("/home/u/slurm-42.out".to_string()));
    assert_eq!(resolve_log_path(OUT, "stderr"), Ok("/home/u/slurm-42.err".to_string()));
}

#[test]
fn builds_scontrol_and_tail_commands() {
    let cmd = build_stdout_path_command("42", None);
    assert!(cmd.contains("scontrol show job 42"));
    let tail = build_tail_command("/home/u/slurm-42.err", 50);
    assert!(tail.contains("tail -n 50"));
    assert!(tail.contains("/home/u/slurm-42.err"));
}

#[test]
fn stderr_tail_detail_drops_blank_tails() {
    assert_eq!(stderr_tail_detail("  \n\n"), None);
    assert_eq!(stderr_tail_detail("boom\n"), Some("last stderr:\nboom".to_string()));
}

#[test]
fn tail_fetch_runs_scontrol_then_tail() {
    let (s1, a1) = tail_step(TailState::Start, None, "42", None, 5);
    assert_eq!(s1, TailState::AwaitPath);
    assert_eq!(a1, TailAction::Run(build_stdout_path_command("42", None)));
    let scontrol = "JobId=42 JobName=train\n   StdOut=/home/u/slurm-42.out\n   StdErr=/home/u/slurm-42.err\n";
    let (s2, a2) = tail_step(s1, Some(scontrol), "42", None, 5);
    assert_eq!(s2, TailState::AwaitTail);
    assert_eq!(a2, TailAction::Run(build_tail_command("/home/u/slurm-42.err", 5)));
    let (s3, a3) = tail_step(s2, Some("boom\n\n"), "42", None, 5);
    assert_eq!(s3, TailState::Done);
    assert_eq!(a3, TailAction::Finish(Some("last stderr:\nboom".to_string())));
}

#[test]
fn tail_fetch_finishes_early() {
    assert_eq!(tail_step(TailState::Start, None, "42", None, 0), (TailState::Done, TailAction::Finish(None)));
    assert_eq!(tail_step(TailState::AwaitPath, None, "42", None, 5), (TailState::Done, TailAction::Finish(None)));
    assert_eq!(
        tail_step(TailState::AwaitPath, Some("JobId=42\n"), "42", None, 5),
        (TailState::Done, TailAction::Finish(None))
    );
    assert_eq!(tail_step(TailState::AwaitTail, Some("  \n"), "42", None, 5), (TailState::Done, TailAction::Finish(None)));
    assert_eq!(tail_step(TailState::AwaitTail, None, "42", None, 5), (TailState::Done, TailAction::Finish(None)));
}
