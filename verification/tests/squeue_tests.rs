use slurm_monitor::squeue::{build_squeue_command, parse_squeue_output, JobStatus};

#[test]
fn builds_command_with_user_and_format() {
    let cmd = build_squeue_command("ivan", None);
    assert_eq!(cmd, "bash -lc 'squeue -u ivan --noheader --format=\"%i|%j|%T|%M|%l|%D|%R|%P|%S\"'");
}

#[test]
fn builds_command_with_slurm_conf_prefix() {
    let cmd = build_squeue_command("ivan", Some("~/slurm-custom/slurm/custom_slurm.conf"));
    assert_eq!(
        cmd,
        "bash -lc 'SLURM_CONF=~/slurm-custom/slurm/custom_slurm.conf squeue -u ivan --noheader --format=\"%i|%j|%T|%M|%l|%D|%R|%P|%S\"'"
    );
}

#[test]
fn parses_multiple_job_lines() {
    let output = "12345|train-model|RUNNING|01:23:45|1-00:00:00|2|node042|gpu|N/A\n\
                  12346|preprocess|PENDING|0:00|1:00:00|1|(Priority)|cpu|2024-01-15T14:32:00\n";
    let jobs = parse_squeue_output(output, "test");
    assert_eq!(
        jobs,
        vec![
            JobStatus {
                id: "12345".into(),
                name: "train-model".into(),
                state: "RUNNING".into(),
                time: "01:23:45".into(),
                time_limit: "1-00:00:00".into(),
                nodes: "2".into(),
                reason: "node042".into(),
                partition: "gpu".into(),
                est_start: "N/A".into(),
                cluster: "test".into(),
            },
            JobStatus {
                id: "12346".into(),
                name: "preprocess".into(),
                state: "PENDING".into(),
                time: "0:00".into(),
                time_limit: "1:00:00".into(),
                nodes: "1".into(),
                reason: "(Priority)".into(),
                partition: "cpu".into(),
                est_start: "2024-01-15T14:32:00".into(),
                cluster: "test".into(),
            },
        ]
    );
}

#[test]
fn empty_output_yields_no_jobs() {
    assert_eq!(parse_squeue_output("", "test"), Vec::new());
}

#[test]
fn squeue_skips_malformed_lines() {
    let output = "not-enough-fields|here\n12345|ok-job|RUNNING|0:05|1:00:00|1|node1|cpu|N/A\n";
    let jobs = parse_squeue_output(output, "test");
    assert_eq!(jobs.len(), 1);
    assert_eq!(jobs[0].id, "12345");
    assert_eq!(jobs[0].cluster, "test");
}

#[test]
fn parses_extended_fields() {
    let output = "12345|train|RUNNING|01:23:45|1-00:00:00|2|node042|gpu|N/A\n";
    let jobs = parse_squeue_output(output, "devana");
    assert_eq!(jobs[0].time_limit, "1-00:00:00");
    assert_eq!(jobs[0].nodes, "2");
    assert_eq!(jobs[0].reason, "node042");
    assert_eq!(jobs[0].partition, "gpu");
}

#[test]
fn parses_estimated_start() {
    let output = "12345|train|PENDING|0:00|1-00:00:00|1|(Priority)|gpu|2024-01-15T14:32:00\n";
    let jobs = parse_squeue_output(output, "devana");
    assert_eq!(jobs[0].est_start, "2024-01-15T14:32:00");
}
