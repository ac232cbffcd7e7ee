use slurm_monitor::notifier::notification_body;

#[test]
fn body_without_detail() {
    assert_eq!(notification_body("devana", "train", "RUNNING", "COMPLETED", None), "[devana] train: RUNNING -> COMPLETED");
}

#[test]
fn body_with_detail_in_parentheses() {
    assert_eq!(
        notification_body("devana", "train", "RUNNING", "FAILED", Some("exit 1:0")),
        "[devana] train: RUNNING -> FAILED (exit 1:0)"
    );
}
