use slurm_monitor::sacct::{build_sacct_command, parse_sacct_output};

#[test]
fn builds_command_with_job_id() {
    let cmd = build_sacct_command("12345", None);
    assert_eq!(
        cmd,
        "bash -lc 'sacct -j 12345 --noheader --parsable2 --format=State,ExitCode,Elapsed,MaxRSS,ReqMem'"
    );
}

#[test]
fn parses_simple_completed_state() {
    let output = "COMPLETED|0:0|00:01:00|10K|1Gn\nCOMPLETED|0:0|00:01:00|10K|1Gn\n";
    assert_eq!(parse_sacct_output(output).map(|r| r.state), Some("COMPLETED".to_string()));
}

#[test]
fn strips_trailing_qualifier_on_cancelled() {
    let output = "CANCELLED by 1001|0:0|00:01:00|10K|1Gn\nCANCELLED by 1001|0:0|00:01:00|10K|1Gn\n";
    assert_eq!(parse_sacct_output(output).map(|r| r.state), Some("CANCELLED".to_string()));
}

#[test]
fn empty_output_yields_none() {
    assert_eq!(parse_sacct_output(""), None);
}

#[test]
fn parses_extended_sacct() {
    let output = "FAILED|1:0|00:05:12|1024K|4Gn\nFAILED|1:0|00:05:12|1024K|4Gn\n";
    let r = parse_sacct_output(output).unwrap();
    assert_eq!(r.state, "FAILED");
    assert_eq!(r.exit_code, "1:0");
    assert_eq!(r.elapsed, "00:05:12");
    assert_eq!(r.max_rss, "1024K");
}

#[test]
fn short_first_line_yields_none() {
    assert_eq!(parse_sacct_output("FAILED|1:0\nFAILED|1:0|a|b|c\n"), None);
}

#[test]
fn builds_command_with_slurm_conf() {
    let cmd = build_sacct_command("7", Some("/etc/alt.conf"));
    assert!(cmd.starts_with("bash -lc 'SLURM_CONF=/etc/alt.conf sacct -j 7 "));
}
