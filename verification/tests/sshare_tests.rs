use slurm_monitor::sshare::{build_command, parse};

#[test]
fn parses_fairshare() {
    assert_eq!(parse("0.123456\n"), Some("0.123456".to_string()));
}

#[test]
fn fairshare_of_empty_output_is_none() {
    assert_eq!(parse(""), None);
    assert_eq!(parse("   \n"), None);
}

#[test]
fn builds_fairshare_command() {
    assert_eq!(build_command("ivan", None), "bash -lc 'sshare -U -u ivan --noheader --parsable2 --format=FairShare'");
}
