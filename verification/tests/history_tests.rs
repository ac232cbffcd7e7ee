use slurm_monitor::history::{History, HistoryEntry, MAX_HISTORY};

fn entry(n: u64) -> HistoryEntry {
    HistoryEntry {
        timestamp_secs: n,
        cluster: "c".into(),
        job_name: format!("job{n}"),
        job_id: n.to_string(),
        from_state: "RUNNING".into(),
        to_state: "COMPLETED".into(),
        detail: if n % 2 == 0 { Some("exit 0:0".into()) } else { None },
    }
}

#[test]
fn recent_returns_newest_first() {
    let mut h = History::new();
    for n in 0..3 {
        h.push(entry(n));
    }
    let r = h.recent(2);
    assert_eq!(r.len(), 2);
    assert_eq!(r[0].timestamp_secs, 2);
    assert_eq!(r[1].timestamp_secs, 1);
    assert_eq!(h.recent(10).len(), 3);
    assert_eq!(h.recent(0).len(), 0);
}

#[test]
fn history_keeps_at_most_fifty_entries() {
    let mut h = History::default();
    for n in 0..120 {
        h.push(entry(n));
    }
    let all = h.recent(1000);
    assert_eq!(all.len(), MAX_HISTORY);
    assert_eq!(all[0].timestamp_secs, 119);
    assert_eq!(all[MAX_HISTORY - 1].timestamp_secs, 70);
    assert_eq!(all[0].detail, None);
    assert_eq!(all[1].detail.as_deref(), Some("exit 0:0"));
}
