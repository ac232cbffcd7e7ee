use slurm_monitor::poller::{
    append_tail, diff, is_failed_state, keyed_snapshot, next_delay, pending_history_detail, pending_notice_detail,
    pending_notice_state, poll_step, resolve_vanished, walltime_message, DiffEvent, PollAction,
};
use slurm_monitor::sacct::{build_sacct_command, parse_sacct_output};
use slurm_monitor::squeue::{build_squeue_command, parse_squeue_output, JobStatus};

fn job(id: &str, name: &str, state: &str) -> JobStatus {
    JobStatus {
        id: id.into(),
        name: name.into(),
        state: state.into(),
        time: "0:01".into(),
        time_limit: "1:00:00".into(),
        nodes: "1".into(),
        reason: "node1".into(),
        partition: "cpu".into(),
        est_start: "N/A".into(),
        cluster: "test".into(),
    }
}

#[test]
fn detects_new_job() {
    let previous: Vec<JobStatus> = Vec::new();
    let current = vec![job("1", "a", "PENDING")];
    let events = diff(&previous, &current);
    assert_eq!(events, vec![DiffEvent::New(job("1", "a", "PENDING"))]);
}

#[test]
fn detects_state_change() {
    let previous = vec![job("1", "a", "PENDING")];
    let current = vec![job("1", "a", "RUNNING")];
    let events = diff(&previous, &current);
    assert_eq!(
        events,
        vec![DiffEvent::StateChanged {
            previous: job("1", "a", "PENDING"),
            current: job("1", "a", "RUNNING"),
        }]
    );
}

#[test]
fn detects_vanished_job() {
    let previous = vec![job("1", "a", "RUNNING")];
    let current: Vec<JobStatus> = vec![];
    let events = diff(&previous, &current);
    assert_eq!(events, vec![DiffEvent::Vanished(job("1", "a", "RUNNING"))]);
}

#[test]
fn unchanged_job_produces_no_event() {
    let previous = vec![job("1", "a", "RUNNING")];
    let current = vec![job("1", "a", "RUNNING")];
    assert_eq!(diff(&previous, &current), Vec::new());
}

#[test]
fn next_delay_resets_to_base_on_success() {
    assert_eq!(next_delay(240, 60, 300, true), 60);
}

#[test]
fn next_delay_doubles_on_failure() {
    assert_eq!(next_delay(60, 60, 300, false), 120);
}

#[test]
fn next_delay_caps_at_max_on_repeated_failure() {
    assert_eq!(next_delay(280, 60, 300, false), 300);
}

#[test]
fn build_squeue_and_sacct_commands_match_expected_targets() {
    let squeue_cmd = build_squeue_command("ivan", None);
    assert!(squeue_cmd.contains("ivan"));
    let sacct_cmd = build_sacct_command("999", None);
    assert!(sacct_cmd.contains("999"));
}

#[test]
fn one_tick_reports_new_job_and_emits_no_notification() {
    let previous: Vec<JobStatus> = Vec::new();
    let output = "1|train|PENDING|0:00|1:00:00|1|(Priority)|cpu|N/A\n";
    let current = parse_squeue_output(output, "test");
    let events = diff(&previous, &current);
    assert_eq!(
        events,
        vec![DiffEvent::New(JobStatus {
            id: "1".into(),
            name: "train".into(),
            state: "PENDING".into(),
            time: "0:00".into(),
            time_limit: "1:00:00".into(),
            nodes: "1".into(),
            reason: "(Priority)".into(),
            partition: "cpu".into(),
            est_start: "N/A".into(),
            cluster: "test".into(),
        })]
    );
    assert_eq!(current.len(), 1);
}

#[test]
fn poller_tick_resolves_vanished_job_via_sacct() {
    let responses = [
        "1|train|RUNNING|0:10|1:00:00|1|node1|cpu|N/A\n",
        "",
        "COMPLETED|0:0|00:01:00|10K|1Gn\n",
    ];
    let mut calls: Vec<String> = Vec::new();

    calls.push(build_squeue_command("ivan", None));
    let previous = parse_squeue_output(responses[0], "test");
    assert_eq!(previous.len(), 1);

    calls.push(build_squeue_command("ivan", None));
    let second_current = parse_squeue_output(responses[1], "test");
    let events = diff(&previous, &second_current);
    assert_eq!(events.len(), 1);
    let vanished = match &events[0] {
        DiffEvent::Vanished(job) => job.clone(),
        other => panic!("expected Vanished, got {other:?}"),
    };
    assert_eq!(vanished.id, "1");

    calls.push(build_sacct_command(&vanished.id, None));
    let resolved = parse_sacct_output(responses[2]);
    assert_eq!(resolved.map(|r| r.state), Some("COMPLETED".to_string()));
    assert_eq!(
        resolve_vanished(&vanished.state, responses[2]),
        Some(("COMPLETED".to_string(), "exit 0:0".to_string()))
    );

    assert!(second_current.is_empty());
    assert_eq!(calls.len(), 3);
    assert!(calls[2].contains("sacct"));
}

#[test]
fn diff_reports_changes_before_vanishings_in_snapshot_order() {
    let previous = vec![job("1", "a", "RUNNING"), job("2", "b", "PENDING"), job("3", "c", "RUNNING")];
    let current = vec![job("4", "d", "PENDING"), job("2", "b", "RUNNING")];
    assert_eq!(
        diff(&previous, &current),
        vec![
            DiffEvent::New(job("4", "d", "PENDING")),
            DiffEvent::StateChanged { previous: job("2", "b", "PENDING"), current: job("2", "b", "RUNNING") },
            DiffEvent::Vanished(job("1", "a", "RUNNING")),
            DiffEvent::Vanished(job("3", "c", "RUNNING")),
        ]
    );
}

#[test]
fn a_snapshot_compared_with_itself_is_quiet() {
    let snap = vec![job("1", "a", "RUNNING"), job("2", "b", "PENDING")];
    assert!(diff(&snap, &snap).is_empty());
}

#[test]
fn backoff_stays_within_bounds() {
    let mut d = 5;
    for _ in 0..20 {
        let next = next_delay(d, 5, 300, false);
        assert!(next <= 300 && next >= d);
        d = next;
    }
    assert_eq!(d, 300);
    assert_eq!(next_delay(d, 5, 300, true), 5);
}

#[test]
fn failed_states_are_recognised_by_prefix() {
    assert!(is_failed_state("FAILED"));
    assert!(is_failed_state("CANCELLED by 1001"));
    assert!(is_failed_state("TIMEOUT"));
    assert!(is_failed_state("OUT_OF_MEMORY"));
    assert!(is_failed_state("NODE_FAIL"));
    assert!(!is_failed_state("COMPLETED"));
    assert!(!is_failed_state("failed"));
}

#[test]
fn vanished_job_with_same_state_or_no_record_is_not_reported() {
    let out = "RUNNING|0:0|00:01:00|10K|1Gn\n";
    assert_eq!(resolve_vanished("RUNNING", out), None);
    assert_eq!(resolve_vanished("RUNNING", ""), None);
    assert_eq!(
        resolve_vanished("RUNNING", "FAILED|1:0|00:05:12|1024K|4Gn\n"),
        Some(("FAILED".to_string(), "exit 1:0".to_string()))
    );
}

#[test]
fn tail_goes_on_its_own_line() {
    assert_eq!(append_tail("exit 1:0", Some("last stderr:\nboom")), "exit 1:0\nlast stderr:\nboom");
    assert_eq!(append_tail("exit 0:0", None), "exit 0:0");
}

#[test]
fn escalation_texts() {
    assert_eq!(pending_history_detail("(Priority)"), "pending too long (Priority)");
    assert_eq!(pending_notice_state("(Priority)"), "still PENDING (Priority)");
    assert_eq!(pending_notice_detail(7200), "queued for over 120 min");
    assert_eq!(pending_notice_detail(59), "queued for over 0 min");
    assert_eq!(walltime_message(90), "90% of walltime used");
}

#[test]
fn kept_snapshot_has_one_job_per_id_in_id_order() {
    let jobs = vec![job("20", "b", "PENDING"), job("100", "a", "RUNNING"), job("20", "c", "RUNNING"), job("3", "d", "PENDING")];
    let kept = keyed_snapshot(&jobs);
    let ids: Vec<&str> = kept.iter().map(|j| j.id.as_str()).collect();
    assert_eq!(ids, vec!["100", "20", "3"]);
    assert_eq!(kept[1], job("20", "c", "RUNNING"));
    assert!(diff(&kept, &kept).is_empty());
    assert!(keyed_snapshot(&[]).is_empty());
}

#[test]
fn poll_step_orders_the_work_of_a_poll() {
    let first = poll_step(Vec::new(), "test", None, Some("1|a|RUNNING|0:10|1:00:00|1|n1|cpu|N/A\n2|b|PENDING|0:00|1:00:00|1|(Priority)|cpu|N/A\n"));
    assert_eq!(first.current.len(), 2);
    assert_eq!(first.actions, vec![PollAction::Escalate, PollAction::Publish]);
    assert_eq!(first.next.len(), 2);

    let second = poll_step(
        first.next,
        "test",
        Some("/etc/slurm.conf"),
        Some("2|b|RUNNING|0:01|1:00:00|1|n2|cpu|N/A\n3|c|PENDING|0:00|1:00:00|1|(Priority)|cpu|N/A\n"),
    );
    assert_eq!(second.events.len(), 3);
    assert_eq!(
        second.actions,
        vec![
            PollAction::Transition(0),
            PollAction::LookupSacct(2, build_sacct_command("1", Some("/etc/slurm.conf"))),
            PollAction::Escalate,
            PollAction::Publish,
        ]
    );
    assert!(matches!(&second.events[0], DiffEvent::StateChanged { current, .. } if current.id == "2"));
    assert!(matches!(&second.events[1], DiffEvent::New(j) if j.id == "3"));

    let kept = second.next.clone();
    let failed = poll_step(second.next, "test", None, None);
    assert_eq!(failed.actions, vec![PollAction::Stop]);
    assert!(failed.events.is_empty());
    assert_eq!(failed.next, kept);
}
