use slurm_monitor::config::NotificationConfig;
use slurm_monitor::poller::notice_actions;
use slurm_monitor::escalation::{Escalation, FirstSeen, Notice};
use slurm_monitor::squeue::JobStatus;

fn job(id: &str, state: &str, time: &str, limit: &str) -> JobStatus {
    JobStatus {
        id: id.into(),
        name: format!("job{id}"),
        state: state.into(),
        time: time.into(),
        time_limit: limit.into(),
        nodes: "1".into(),
        reason: "(Priority)".into(),
        partition: "cpu".into(),
        est_start: "N/A".into(),
        cluster: "c".into(),
    }
}

#[test]
fn pending_notice_fires_once_after_threshold() {
    let mut e = Escalation::new();
    let snap = vec![job("1", "PENDING", "0:00", "1:00:00")];
    assert!(e.tick(&snap, 1000, 3600, 90).is_empty());
    assert!(e.tick(&snap, 4600, 3600, 90).is_empty());
    assert_eq!(e.tick(&snap, 4601, 3600, 90), vec![Notice::PendingTooLong(0)]);
    assert!(e.tick(&snap, 9000, 3600, 90).is_empty());
}

#[test]
fn walltime_notice_fires_once_and_again_after_resubmission() {
    let mut e = Escalation::new();
    let early = vec![job("7", "RUNNING", "30:00", "1:00:00")];
    let late = vec![job("7", "RUNNING", "54:00", "1:00:00")];
    assert!(e.tick(&early, 0, 0, 90).is_empty());
    assert_eq!(e.tick(&late, 0, 0, 90), vec![Notice::WalltimeCrossed(0)]);
    assert!(e.tick(&late, 0, 0, 90).is_empty());
    assert!(e.tick(&[], 0, 0, 90).is_empty());
    assert_eq!(e.tick(&late, 0, 0, 90), vec![Notice::WalltimeCrossed(0)]);
}

#[test]
fn zero_thresholds_turn_notices_off() {
    let mut e = Escalation::new();
    let snap = vec![job("1", "PENDING", "0:00", "1:00:00"), job("2", "RUNNING", "59:00", "1:00:00")];
    assert!(e.tick(&snap, 0, 0, 0).is_empty());
    assert!(e.tick(&snap, 1_000_000, 0, 0).is_empty());
}

#[test]
fn pending_clock_restarts_when_job_stops_pending() {
    let mut e = Escalation::new();
    let pending = vec![job("1", "PENDING", "0:00", "1:00:00")];
    let running = vec![job("1", "RUNNING", "0:10", "1:00:00")];
    assert!(e.tick(&pending, 0, 100, 0).is_empty());
    assert!(e.tick(&running, 50, 100, 0).is_empty());
    assert!(e.tick(&pending, 120, 100, 0).is_empty());
    assert_eq!(e.tick(&pending, 221, 100, 0), vec![Notice::PendingTooLong(0)]);
}

#[test]
fn notices_follow_snapshot_order() {
    let mut e = Escalation::new();
    let snap = vec![
        job("1", "RUNNING", "59:00", "1:00:00"),
        job("2", "COMPLETING", "0:00", "1:00:00"),
        job("3", "PENDING", "0:00", "1:00:00"),
    ];
    assert_eq!(e.tick(&snap, 0, 10, 90), vec![Notice::WalltimeCrossed(0)]);
    assert_eq!(e.tick(&snap, 11, 10, 90), vec![Notice::PendingTooLong(2)]);
}

#[test]
fn first_seen_keeps_the_first_time() {
    let mut f = FirstSeen::new();
    assert_eq!(f.get_or_insert("1", 10), 10);
    assert_eq!(f.get_or_insert("1", 99), 10);
    f.keep_pending(&[]);
    assert_eq!(f.get_or_insert("1", 99), 99);
}

#[test]
fn notices_come_once_while_the_job_stays_listed() {
    let mut e = Escalation::new();
    let pending = vec![job("1", "PENDING", "0:00", "1:00:00")];
    let running_late = vec![job("1", "RUNNING", "57:00", "1:00:00")];
    let running_later = vec![job("1", "RUNNING", "59:00", "1:00:00")];
    let mut notices = Vec::new();
    let ticks: [(&Vec<JobStatus>, u64); 8] = [
        (&pending, 0),
        (&pending, 4000),
        (&pending, 8000),
        (&running_late, 9000),
        (&pending, 20000),
        (&running_later, 30000),
        (&pending, 90000),
        (&running_later, 95000),
    ];
    for (snap, now) in ticks {
        notices.extend(e.tick(snap, now, 3600, 90));
    }
    assert_eq!(notices, vec![Notice::PendingTooLong(0), Notice::WalltimeCrossed(0)]);
}

#[test]
fn notice_actions_record_and_announce() {
    let cfg = NotificationConfig {
        notify_states: vec!["FAILED".into()],
        quiet_start: Some("22:00".into()),
        quiet_end: Some("08:00".into()),
        ..Default::default()
    };
    let snap = vec![job("1", "PENDING", "0:00", "1:00:00"), job("2", "RUNNING", "55:00", "1:00:00")];
    let notices = vec![Notice::PendingTooLong(0), Notice::WalltimeCrossed(1), Notice::WalltimeCrossed(9)];
    let acts = notice_actions(&cfg, &snap, &notices, 3600, 90, (12, 0));
    assert_eq!(acts.len(), 2);
    assert_eq!(acts[0].job, 0);
    assert_eq!((acts[0].from.as_str(), acts[0].to.as_str()), ("PENDING", "PENDING"));
    assert_eq!(acts[0].detail, "pending too long (Priority)");
    assert!(acts[0].notify);
    assert_eq!(acts[0].notify_to, "still PENDING (Priority)");
    assert_eq!(acts[0].notify_detail, "queued for over 60 min");
    assert_eq!(acts[1].job, 1);
    assert_eq!((acts[1].from.as_str(), acts[1].to.as_str()), ("RUNNING", "RUNNING"));
    assert_eq!(acts[1].detail, "90% of walltime used");
    assert_eq!(acts[1].notify_to, "RUNNING");
    assert_eq!(acts[1].notify_detail, "90% of walltime used");
    let quiet = notice_actions(&cfg, &snap, &notices, 3600, 90, (23, 0));
    assert!(quiet.iter().all(|a| !a.notify));
}

#[test]
fn history_entries_once_per_stay() {
    let cfg = NotificationConfig::default();
    let mut e = Escalation::new();
    let pending = vec![job("1", "PENDING", "0:00", "1:00:00")];
    let late = vec![job("1", "RUNNING", "57:00", "1:00:00")];
    let mut details = Vec::new();
    for (snap, now) in [(&pending, 0u64), (&pending, 5000), (&late, 6000), (&pending, 9000), (&late, 20000)] {
        let ns = e.tick(snap, now, 3600, 90);
        for a in notice_actions(&cfg, snap, &ns, 3600, 90, (12, 0)) {
            details.push(a.detail);
        }
    }
    assert_eq!(details, vec!["pending too long (Priority)".to_string(), "90% of walltime used".to_string()]);
}
