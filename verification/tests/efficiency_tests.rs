use slurm_monitor::efficiency::{
    build_command, format_bytes, parse, parse_bytes, parse_reqmem_bytes, Share,
};

fn pct(s: Share) -> f64 {
    100.0 * s.part as f64 / s.whole as f64
}

#[test]
fn builds_command_with_user() {
    let cmd = build_command("ivan", None);
    assert!(cmd.contains("sacct -u ivan --starttime now-7days --endtime now"));
    assert!(cmd.contains("JobName%40"));
    assert!(cmd.contains("TotalCPU"));
}

#[test]
fn parses_main_line_with_batch_step_rss() {
    let out = "123|train|COMPLETED|01:00:00|3600|8|7200|16Gn|1.50G|08:00:00\n\
               123.batch|train|COMPLETED|01:00:00|3600|8|7200|16Gn|15.20G|08:00:00\n";
    let jobs = parse(out);
    assert_eq!(jobs.len(), 1);
    let j = &jobs[0];
    assert_eq!(j.id, "123");
    assert_eq!(j.name, "train");
    assert_eq!(j.state, "COMPLETED");
    assert_eq!(j.mem_req, "16Gn");
    assert_eq!(j.mem_used, "15.2G");
    assert!((pct(j.cpu_util_pct.unwrap()) - 100.0).abs() < 0.01);
    assert!((pct(j.walltime_pct.unwrap()) - 50.0).abs() < 0.01);
    assert!((pct(j.mem_ratio_pct.unwrap()) - 95.0).abs() < 0.5);
}

#[test]
fn over_provisioned_job_shows_low_utilization() {
    let out = "124|sweep|COMPLETED|04:00:00|14400|64|144000|64Gn|2.00G|04:00:00\n";
    let jobs = parse(out);
    let j = &jobs[0];
    assert!((pct(j.cpu_util_pct.unwrap()) - 1.5625).abs() < 0.01);
    assert!((pct(j.mem_ratio_pct.unwrap()) - 3.125).abs() < 0.01);
    assert!((pct(j.walltime_pct.unwrap()) - 10.0).abs() < 0.01);
}

#[test]
fn missing_raw_fields_yield_none_metrics() {
    let out = "125|odd|COMPLETED|00:10:00|600|N/A|N/A|N/A|N/A|600\n";
    let jobs = parse(out);
    assert_eq!(jobs.len(), 1);
    let j = &jobs[0];
    assert_eq!(j.cpu_util_pct, None);
    assert_eq!(j.walltime_pct, None);
    assert_eq!(j.mem_ratio_pct, None);
    assert_eq!(j.mem_req, "N/A");
    assert_eq!(j.mem_used, "N/A");
}

#[test]
fn parses_byte_units() {
    assert_eq!(parse_bytes("4Gn"), Some(4 * 1024 * 1024 * 1024));
    assert_eq!(parse_bytes("500Mn"), Some(500 * 1024 * 1024));
    assert_eq!(parse_bytes("1024K"), Some(1024 * 1024));
    assert_eq!(parse_bytes("2T"), Some(2u64 << 40));
    assert_eq!(parse_bytes("N/A"), None);
    assert_eq!(parse_bytes(""), None);
}

#[test]
fn efficiency_skips_malformed_lines() {
    let out = "garbage\n126|ok|COMPLETED|00:01:00|60|1|3600|1Gn|100Mn|60\n";
    let jobs = parse(out);
    assert_eq!(jobs.len(), 1);
    assert_eq!(jobs[0].id, "126");
}

#[test]
fn reqmem_per_cpu_multiplies_by_alloc_cpus() {
    let out = "200|permem|COMPLETED|01:00:00|3600|8|7200|4Gc|32.00G|08:00:00\n";
    let jobs = parse(out);
    let j = &jobs[0];
    assert!((pct(j.mem_ratio_pct.unwrap()) - 100.0).abs() < 0.5);
    assert_eq!(parse_reqmem_bytes("4Gn", Some(8)), Some(4 * 1024 * 1024 * 1024));
    assert_eq!(parse_reqmem_bytes("4Gc", Some(8)), Some(32u64 * 1024 * 1024 * 1024));
}

#[test]
fn format_bytes_sub_mb_uses_kib() {
    assert_eq!(format_bytes(512 * 1024), "512K");
    assert_eq!(format_bytes(parse_bytes("512K").unwrap()), "512K");
}

#[test]
fn format_bytes_picks_the_largest_unit() {
    assert_eq!(format_bytes(15 * 1024 * 1024 * 1024 + 200 * 1024 * 1024), "15.2G");
    assert_eq!(format_bytes(3 * 1024 * 1024), "3M");
    assert_eq!(format_bytes(100), "0K");
}

#[test]
fn exact_shares_have_their_parts() {
    let out = "300|s|COMPLETED|00:01:40|100|2|400|1Gn|512M|00:01:40\n";
    let jobs = parse(out);
    let j = &jobs[0];
    let w = j.walltime_pct.unwrap();
    assert_eq!((w.part, w.whole), (100, 400));
    let c = j.cpu_util_pct.unwrap();
    assert_eq!((c.part, c.whole), (100, 200));
}
