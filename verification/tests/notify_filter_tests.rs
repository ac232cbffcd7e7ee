use slurm_monitor::config::NotificationConfig;
use slurm_monitor::notify_filter::{in_quiet_hours, pending_too_long, should_notify, walltime_pct};
use slurm_monitor::poller::{plan_transition, EventPlan};

#[test]
fn notifies_when_state_list_empty() {
    let cfg = NotificationConfig::default();
    assert!(should_notify(&cfg, "COMPLETED", (12, 0)));
}

#[test]
fn respects_state_allowlist() {
    let cfg = NotificationConfig { notify_states: vec!["FAILED".into()], ..Default::default() };
    assert!(should_notify(&cfg, "FAILED", (12, 0)));
    assert!(!should_notify(&cfg, "RUNNING", (12, 0)));
}

#[test]
fn suppresses_during_quiet_hours() {
    let cfg = NotificationConfig {
        quiet_start: Some("22:00".into()),
        quiet_end: Some("08:00".into()),
        ..Default::default()
    };
    assert!(!should_notify(&cfg, "FAILED", (23, 0)));
    assert!(should_notify(&cfg, "FAILED", (12, 0)));
}

#[test]
fn quiet_window_within_a_day_excludes_its_end() {
    let cfg = NotificationConfig {
        quiet_start: Some("12:00".into()),
        quiet_end: Some("13:30".into()),
        ..Default::default()
    };
    assert!(in_quiet_hours(&cfg, (12, 0)));
    assert!(in_quiet_hours(&cfg, (13, 29)));
    assert!(!in_quiet_hours(&cfg, (13, 30)));
    assert!(!in_quiet_hours(&cfg, (11, 59)));
}

#[test]
fn unreadable_quiet_hours_are_ignored() {
    let cfg = NotificationConfig {
        quiet_start: Some("late".into()),
        quiet_end: Some("08:00".into()),
        ..Default::default()
    };
    assert!(!in_quiet_hours(&cfg, (3, 0)));
    assert!(should_notify(&cfg, "FAILED", (3, 0)));
}

#[test]
fn pending_threshold_is_strict_and_zero_is_off() {
    assert!(!pending_too_long(7200, 7200));
    assert!(pending_too_long(7201, 7200));
    assert!(!pending_too_long(1_000_000, 0));
}

#[test]
fn walltime_share_in_whole_percent() {
    assert_eq!(walltime_pct("54:00", "1:00:00"), Some(90));
    assert_eq!(walltime_pct("1-00:00:00", "2-00:00:00"), Some(50));
    assert_eq!(walltime_pct("0:10", "UNLIMITED"), None);
    assert_eq!(walltime_pct("0:10", "0:00"), None);
}

#[test]
fn transition_plans_follow_the_filter() {
    let cfg = NotificationConfig {
        notify_states: vec!["FAILED".into(), "COMPLETED".into()],
        quiet_start: Some("22:00".into()),
        quiet_end: Some("08:00".into()),
        ..Default::default()
    };
    assert_eq!(
        plan_transition(&cfg, "FAILED", (12, 0)),
        EventPlan { fetch_tail: true, record: true, notify: true }
    );
    assert_eq!(
        plan_transition(&cfg, "FAILED", (23, 0)),
        EventPlan { fetch_tail: true, record: true, notify: false }
    );
    assert_eq!(
        plan_transition(&cfg, "COMPLETED", (12, 0)),
        EventPlan { fetch_tail: false, record: true, notify: true }
    );
    assert_eq!(
        plan_transition(&cfg, "RUNNING", (12, 0)),
        EventPlan { fetch_tail: false, record: true, notify: false }
    );
    assert_eq!(
        plan_transition(&cfg, "CANCELLED by 1000", (12, 0)),
        EventPlan { fetch_tail: true, record: true, notify: false }
    );
}
