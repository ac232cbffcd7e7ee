use slurm_monitor::config::{
    default_poll_interval, default_port, slurm_env_prefix, ClusterConfig, Config, LegacyConfig,
    NotificationConfig, DEFAULT_QUOTA_COMMAND,
};

#[test]
fn slurm_env_prefix_variants() {
    assert_eq!(slurm_env_prefix(None), "");
    assert_eq!(slurm_env_prefix(Some("")), "");
    assert_eq!(slurm_env_prefix(Some("  ")), "");
    assert_eq!(
        slurm_env_prefix(Some("~/slurm-custom/slurm/custom_slurm.conf")),
        "SLURM_CONF=~/slurm-custom/slurm/custom_slurm.conf "
    );
}

#[test]
fn notification_defaults_match_documented_values() {
    let cfg = NotificationConfig::default();
    assert_eq!(cfg.attach_error_tail_lines, 50);
    assert_eq!(cfg.notify_pending_after_secs, 7200);
    assert_eq!(cfg.notify_walltime_pct, 90);
}

fn legacy() -> LegacyConfig {
    LegacyConfig {
        host: "login.cluster.example".into(),
        port: 22,
        username: "jdoe".into(),
        key_path: "/home/jdoe/.ssh/id_ed25519".into(),
        key_passphrase: None,
        poll_interval_secs: 30,
        squeue_user: None,
        slurm_conf_path: None,
        disk_paths: None,
    }
}

fn legacy_from_toml(text: &str) -> LegacyConfig {
    let t: toml::Table = toml::from_str(text).expect("legacy toml");
    let text_of = |k: &str| t.get(k).and_then(|v| v.as_str()).map(|s| s.to_string());
    LegacyConfig {
        host: text_of("host").expect("host"),
        port: t.get("port").and_then(|v| v.as_integer()).map(|p| p as u16).unwrap_or(default_port()),
        username: text_of("username").expect("username"),
        key_path: text_of("key_path").expect("key_path"),
        key_passphrase: text_of("key_passphrase"),
        poll_interval_secs: t
            .get("poll_interval_secs")
            .and_then(|v| v.as_integer())
            .map(|p| p as u64)
            .unwrap_or(default_poll_interval()),
        squeue_user: text_of("squeue_user"),
        slurm_conf_path: text_of("slurm_conf_path"),
        disk_paths: None,
    }
}

#[test]
fn migrates_legacy_single_cluster() {
    let legacy = r#"
            host = "login.cluster.example"
            username = "jdoe"
            key_path = "/home/jdoe/.ssh/id_ed25519"
            poll_interval_secs = 30
        "#;
    let cfg = Config::from_legacy(legacy_from_toml(legacy));
    assert_eq!(cfg.clusters.len(), 1);
    assert_eq!(cfg.clusters[0].name, "default");
    assert_eq!(cfg.clusters[0].host, "login.cluster.example");
    assert_eq!(cfg.clusters[0].poll_interval_secs, 30);
    assert_eq!(cfg.clusters[0].port, 22);
}

#[test]
fn legacy_settings_become_one_default_cluster() {
    let cfg = Config::from_legacy(legacy());
    assert_eq!(cfg.clusters.len(), 1);
    assert_eq!(cfg.clusters[0].name, "default");
    assert_eq!(cfg.clusters[0].host, "login.cluster.example");
    assert_eq!(cfg.clusters[0].poll_interval_secs, 30);
    assert_eq!(cfg.clusters[0].disk_paths, vec!["/home", "/scratch"]);
    assert!(cfg.clusters[0].quota_paths.is_empty());
    assert_eq!(cfg.notifications.notify_walltime_pct, 90);
}

#[test]
fn effective_squeue_user_prefers_configured_user() {
    let mut cfg = Config::from_legacy(legacy());
    assert_eq!(cfg.clusters[0].effective_squeue_user(), "jdoe");
    cfg.clusters[0].squeue_user = Some("ivan".into());
    assert_eq!(cfg.clusters[0].effective_squeue_user(), "ivan");
}

#[test]
fn quota_template_defaults_to_lfs_then_quota() {
    let cfg = Config::from_legacy(legacy());
    let c: &ClusterConfig = &cfg.clusters[0];
    assert_eq!(c.quota_command_template(), DEFAULT_QUOTA_COMMAND);
}

#[test]
fn find_cluster_by_name() {
    let cfg = Config::from_legacy(legacy());
    assert_eq!(cfg.find_cluster("default"), Some(0));
    assert_eq!(cfg.find_cluster("lumi"), None);
}
