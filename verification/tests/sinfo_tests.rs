use slurm_monitor::sinfo::{build_command, parse};

#[test]
fn parses_sinfo() {
    let out = "gpu|up|2/8/0/10\ncpu|up|20/4/0/24\n";
    let p = parse(out);
    assert_eq!(p.len(), 2);
    assert_eq!(p[0].partition, "gpu");
    assert_eq!(p[0].nodes, "2/8/0/10");
}

#[test]
fn sinfo_skips_lines_without_three_fields() {
    let p = parse("junk\ngpu|up|1/1/0/2|extra\n debug | down | 0/0/4/4 \n");
    assert_eq!(p.len(), 1);
    assert_eq!(p[0].partition, "debug");
    assert_eq!(p[0].avail, "down");
}

#[test]
fn builds_sinfo_command() {
    assert_eq!(build_command(None), "bash -lc 'sinfo --noheader --format=\"%P|%a|%F\"'");
}
