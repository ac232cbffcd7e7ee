use slurm_monitor::supervisor::{categorize, retry_schedule, RETRY_BASE_SECS, RETRY_MAX_SECS};

#[test]
fn categorize_detects_auth_failure() {
    let err = "authenticating as bob with key \"id_rsa\": authentication failed";
    assert_eq!(categorize(err), "auth failed");
}

#[test]
fn categorize_detects_network_unreachable() {
    assert_eq!(categorize("connecting to host:22: connection refused"), "network / host unreachable");
}

#[test]
fn categorize_detects_timeout_as_network() {
    assert_eq!(categorize("ssh handshake failed: operation timed out"), "network / host unreachable");
}

#[test]
fn categorize_falls_back_to_generic_connection_error() {
    assert_eq!(categorize("something completely unexpected happened"), "connection error");
}

#[test]
fn categorize_ignores_ascii_case() {
    assert_eq!(categorize("AUTH REJECTED"), "auth failed");
    assert_eq!(categorize("Network is unreachable"), "network / host unreachable");
}

#[test]
fn retry_waits_double_up_to_the_cap() {
    let mut delay = RETRY_BASE_SECS;
    let mut waits = Vec::new();
    for _ in 0..8 {
        let (wait, next) = retry_schedule(delay, false);
        waits.push(wait);
        delay = next;
    }
    assert_eq!(waits, vec![5, 10, 20, 40, 80, 160, 300, 300]);
    assert_eq!(retry_schedule(delay, true), (RETRY_BASE_SECS, 10));
    assert!(delay <= RETRY_MAX_SECS);
}
