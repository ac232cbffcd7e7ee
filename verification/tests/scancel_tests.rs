use slurm_monitor::scancel::build_scancel_command;

#[test]
fn builds_scancel() {
    assert_eq!(build_scancel_command("999", None), "bash -lc 'scancel 999'");
}

#[test]
fn builds_scancel_with_slurm_conf() {
    assert_eq!(
        build_scancel_command("999", Some("/etc/alt.conf")),
        "bash -lc 'SLURM_CONF=/etc/alt.conf scancel 999'"
    );
}
