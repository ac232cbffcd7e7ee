use slurm_monitor::disks::{build_command, crossing_threshold, parse, DiskUsage, NotifiedSet};

#[test]
fn builds_command_with_quoted_paths() {
    let cmd = build_command(&["/home".into(), "/scratch".into()]);
    assert!(cmd.contains("df -h --output=target,size,used,pcent"));
    assert!(cmd.contains("for p in \"/home\" \"/scratch\""));
    assert!(cmd.contains("[ -e \"$p\" ]"));
    assert!(cmd.contains("|| df -hP $sel"));
}

#[test]
fn parses_output_variant() {
    let out = "\
Mounted on  Size  Used Use%
/home        100G   85G  85%
/scratch      50T    2G   1%
";
    let d = parse(out);
    assert_eq!(d.len(), 2);
    assert_eq!(d[0].filesystem, "/home");
    assert_eq!(d[0].size, "100G");
    assert_eq!(d[0].used, "85G");
    assert_eq!(d[0].used_pct, Some(85));
    assert_eq!(d[1].used_pct, Some(1));
}

#[test]
fn parses_plain_df_variant() {
    let out = "\
Filesystem      Size  Used Avail Use% Mounted on
/dev/sda1       100G   95G  5.0G  95% /home
nas:/scratch     50T   10T   40T  20% /scratch
";
    let d = parse(out);
    assert_eq!(d.len(), 2);
    assert_eq!(d[0].filesystem, "/home");
    assert_eq!(d[0].used_pct, Some(95));
    assert_eq!(d[1].filesystem, "/scratch");
    assert_eq!(d[1].used_pct, Some(20));
    assert_eq!(d[1].size, "50T");
}

fn disk(fs: &str, used: &str, pct: u8) -> DiskUsage {
    DiskUsage { filesystem: fs.into(), size: "100G".into(), used: used.into(), used_pct: Some(pct) }
}

#[test]
fn threshold_fires_once_until_recovery() {
    let disks = vec![
        DiskUsage { filesystem: "/home".into(), size: "100G".into(), used: "95G".into(), used_pct: Some(95) },
        DiskUsage { filesystem: "/scratch".into(), size: "50T".into(), used: "2G".into(), used_pct: Some(1) },
    ];
    let mut notified = NotifiedSet::new();
    let fires = crossing_threshold(&disks, &mut notified);
    assert_eq!(fires.len(), 1);
    assert_eq!(fires[0].filesystem, "/home");

    assert!(crossing_threshold(&disks, &mut notified).is_empty());

    let recovered = vec![disk("/home", "50G", 50)];
    crossing_threshold(&recovered, &mut notified);
    let refilled = vec![disk("/home", "91G", 91)];
    let fires = crossing_threshold(&refilled, &mut notified);
    assert_eq!(fires.len(), 1);
}

#[test]
fn hysteresis_between_85_and_90_keeps_state() {
    let mut notified = NotifiedSet::new();
    notified.insert("/home");
    let disks = vec![disk("/home", "88G", 88)];
    assert!(crossing_threshold(&disks, &mut notified).is_empty());
    assert!(notified.contains("/home"));
}

#[test]
fn exactly_ninety_percent_fires_and_eighty_five_keeps_latch() {
    let mut notified = NotifiedSet::new();
    assert_eq!(crossing_threshold(&[disk("/home", "90G", 90)], &mut notified).len(), 1);
    assert!(crossing_threshold(&[disk("/home", "85G", 85)], &mut notified).is_empty());
    assert!(notified.contains("/home"));
    crossing_threshold(&[disk("/home", "84G", 84)], &mut notified);
    assert!(!notified.contains("/home"));
}

#[test]
fn unknown_usage_neither_fires_nor_clears() {
    let mut notified = NotifiedSet::new();
    notified.insert("/home");
    let unknown = DiskUsage { filesystem: "/home".into(), size: "?".into(), used: "?".into(), used_pct: None };
    assert!(crossing_threshold(&[unknown], &mut notified).is_empty());
    assert!(notified.contains("/home"));
}

#[test]
fn notified_set_insert_reports_novelty_and_remove_forgets() {
    let mut s = NotifiedSet::new();
    assert!(s.insert("/a"));
    assert!(!s.insert("/a"));
    assert!(s.contains("/a"));
    s.remove("/a");
    assert!(!s.contains("/a"));
}
