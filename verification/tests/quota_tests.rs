use slurm_monitor::config::DEFAULT_QUOTA_COMMAND;
use slurm_monitor::quota::{build_command, parse, parse_quota_size};

#[test]
fn builds_command_substitutes_user_and_quoted_path() {
    let cmd = build_command("ivan", "/home", DEFAULT_QUOTA_COMMAND);
    assert!(cmd.starts_with("bash -lc '"));
    assert!(cmd.contains("lfs quota -h -u ivan \"/home\""));
    assert!(cmd.contains("|| quota -s"));
}

#[test]
fn parses_quota_s_human_output() {
    let out = "\
Disk quotas for user ivan (uid 1000):
     Filesystem   space   quota   limit   grace   files   quota   limit   grace
      /dev/sdb1    290G    500G    550G           12345       0       0
";
    let d = parse(out, "/home").expect("should parse a quota row");
    assert_eq!(d.filesystem, "/home");
    assert_eq!(d.size, "500.0G");
    assert_eq!(d.used, "290.0G");
    assert_eq!(d.used_pct, Some(58));
}

#[test]
fn parses_lfs_quota_human_output() {
    let out = "\
Disk quotas for usr ivan (uid 1000):
     Filesystem  used   quota   limit   grace   files   quota   limit   grace
          /home   290G    500G    550G       -   12345       0       0       -
";
    let d = parse(out, "/home").unwrap();
    assert_eq!(d.used_pct, Some(58));
    assert_eq!(d.size, "500.0G");
}

#[test]
fn parses_block_counts_in_kib() {
    let out = "\
Disk quotas for usr ivan (uid 1000):
     Filesystem  kbytes   quota      limit      grace  files
       /home   304087040 524288000  576716800   -      12345
";
    let d = parse(out, "/home").unwrap();
    assert_eq!(d.size, "500.0G");
    assert_eq!(d.used_pct, Some(58));
}

#[test]
fn no_quota_returns_none_for_df_fallback() {
    let out = "\
Disk quotas for user ivan (uid 1000):
     Filesystem   space   quota   limit   grace   files   quota   limit   grace
      /dev/sda1     12G       0       0           1000       0       0
";
    assert_eq!(parse(out, "/home"), None);
}

#[test]
fn handles_wrapped_filesystem_name() {
    let out = "\
Disk quotas for user ivan (uid 1000):
     Filesystem   space   quota   limit   grace   files
/dev/mapper/vg0-home
              290G    500G    550G           12345
";
    let d = parse(out, "/home").unwrap();
    assert_eq!(d.used_pct, Some(58));
}

#[test]
fn over_quota_marker_is_stripped() {
    assert_eq!(parse_quota_size("290G*"), slurm_monitor::efficiency::parse_bytes("290G"));
    assert_eq!(parse_quota_size("-"), None);
    assert_eq!(parse_quota_size("1048576"), Some(1024 * 1024 * 1024));
}

#[test]
fn hard_limit_is_used_without_soft_quota() {
    let out = "\
Disk quotas for user ivan (uid 1000):
     Filesystem   space   quota   limit   grace
      /dev/sdb1    100G       0    400G
";
    let d = parse(out, "/scratch").unwrap();
    assert_eq!(d.size, "400.0G");
    assert_eq!(d.used_pct, Some(25));
}

#[test]
fn block_counts_saturate() {
    assert_eq!(parse_quota_size("18446744073709551615"), Some(u64::MAX));
}
