//! Cluster and notification settings, and the shell prefix every SLURM
//! command is built with.
use vstd::prelude::*;

use crate::text::{chars_of, eq_chars, push_chars, trim, trimmed};

verus! {

broadcast use vstd::string::group_string_axioms;

/// Default quota query: try Lustre's per-path `lfs quota`, else plain
/// `quota -s` (all filesystems). Both print the same tabular layout.
pub const DEFAULT_QUOTA_COMMAND: &'static str =
    "lfs quota -h -u {user} {path} 2>/dev/null || quota -s 2>/dev/null";

/// One monitored cluster.
#[derive(Debug, Clone)]
pub struct ClusterConfig {
    pub name: String,
    pub host: String,
    pub port: u16,
    pub username: String,
    pub key_path: String,
    pub key_passphrase: Option<String>,
    pub poll_interval_secs: u64,
    pub squeue_user: Option<String>,
    /// Optional path to a custom slurm.conf on the cluster. When set, every
    /// SLURM command runs with `SLURM_CONF=<path>`.
    pub slurm_conf_path: Option<String>,
    /// Filesystems to watch in the disks panel.
    pub disk_paths: Vec<String>,
    /// Paths reported via per-user quota instead of df.
    pub quota_paths: Vec<String>,
    /// Override for the quota query, with `{user}` and `{path}` placeholders.
    pub quota_command: Option<String>,
}

/// How state transitions are announced.
#[derive(Debug, Clone)]
pub struct NotificationConfig {
    /// States to notify on; empty means every transition.
    pub notify_states: Vec<String>,
    /// Start of the daily quiet period, `"HH:MM"`.
    pub quiet_start: Option<String>,
    /// End of the daily quiet period, `"HH:MM"`.
    pub quiet_end: Option<String>,
    /// Lines of stderr to attach to FAILED/CANCELLED notifications. 0 = off.
    pub attach_error_tail_lines: u32,
    /// Notify once when a job stays PENDING longer than this (seconds). 0 = off.
    pub notify_pending_after_secs: u64,
    /// Notify once when a RUNNING job crosses this percent of its walltime. 0 = off.
    pub notify_walltime_pct: u32,
}

/// The whole settings file.
#[derive(Debug, Clone)]
pub struct Config {
    pub clusters: Vec<ClusterConfig>,
    pub notifications: NotificationConfig,
}

/// The fields of the single-cluster settings file that predates `[[clusters]]`,
/// with the defaults of absent fields already applied except `disk_paths`.
#[derive(Debug, Clone)]
pub struct LegacyConfig {
    pub host: String,
    pub port: u16,
    pub username: String,
    pub key_path: String,
    pub key_passphrase: Option<String>,
    pub poll_interval_secs: u64,
    pub squeue_user: Option<String>,
    pub slurm_conf_path: Option<String>,
    pub disk_paths: Option<Vec<String>>,
}

pub open spec fn default_disk_paths_spec() -> Seq<Seq<char>> {
    seq!["/home"@, "/scratch"@]
}

/// The views of a list of strings.
pub open spec fn strings_view(v: Seq<String>) -> Seq<Seq<char>> {
    v.map_values(|s: String| s@)
}

/// `/home` and `/scratch`.
pub fn default_disk_paths() -> (r: Vec<String>)
    ensures
        strings_view(r@) == default_disk_paths_spec(),
{
    let mut r: Vec<String> = Vec::new();
    r.push(String::from_str("/home"));
    r.push(String::from_str("/scratch"));
    assert(strings_view(r@) =~= default_disk_paths_spec());
    r
}

pub fn default_port() -> (r: u16)
    ensures
        r == 22,
{
    22
}

pub fn default_poll_interval() -> (r: u64)
    ensures
        r == 60,
{
    60
}

pub fn default_error_tail_lines() -> (r: u32)
    ensures
        r == 50,
{
    50
}

pub fn default_pending_after_secs() -> (r: u64)
    ensures
        r == 7200,
{
    7200
}

pub fn default_walltime_pct() -> (r: u32)
    ensures
        r == 90,
{
    90
}

/// The view of an optional string argument.
pub open spec fn opt_str_view(o: Option<&str>) -> Option<Seq<char>> {
    match o {
        Some(s) => Some(s@),
        None => None,
    }
}

/// `SLURM_CONF=<path> ` for a configured path that is not blank after
/// trimming, else nothing.
pub open spec fn env_prefix(conf: Option<Seq<char>>) -> Seq<char> {
    match conf {
        Some(p) => if trim(p).len() > 0 {
            "SLURM_CONF="@ + trim(p) + " "@
        } else {
            Seq::<char>::empty()
        },
        None => Seq::<char>::empty(),
    }
}

/// Shell prefix setting SLURM_CONF for a command, when a custom config
/// path is configured. The path is inserted unquoted.
pub fn slurm_env_prefix(slurm_conf: Option<&str>) -> (r: String)
    ensures
        r@ == env_prefix(opt_str_view(slurm_conf)),
{
    match slurm_conf {
        Some(p) => {
            let cs = chars_of(p);
            let t = trimmed(&cs);
            if t.len() > 0 {
                let mut r = String::from_str("SLURM_CONF=");
                push_chars(&mut r, &t);
                r.append(" ");
                r
            } else {
                String::new()
            }
        },
        None => String::new(),
    }
}

impl NotificationConfig {
    /// No state filter, no quiet hours, 50 stderr lines, 7200 s pending
    /// notice, 90% walltime notice.
    pub fn defaults() -> (r: Self)
        ensures
            r.notify_states@.len() == 0,
            r.quiet_start is None,
            r.quiet_end is None,
            r.attach_error_tail_lines == 50,
            r.notify_pending_after_secs == 7200,
            r.notify_walltime_pct == 90,
    {
        NotificationConfig {
            notify_states: Vec::new(),
            quiet_start: None,
            quiet_end: None,
            attach_error_tail_lines: default_error_tail_lines(),
            notify_pending_after_secs: default_pending_after_secs(),
            notify_walltime_pct: default_walltime_pct(),
        }
    }
}

impl Default for NotificationConfig {
    fn default() -> (r: Self)
        ensures
            r.notify_states@.len() == 0,
            r.quiet_start is None,
            r.quiet_end is None,
            r.attach_error_tail_lines == 50,
            r.notify_pending_after_secs == 7200,
            r.notify_walltime_pct == 90,
    {
        NotificationConfig::defaults()
    }
}

impl ClusterConfig {
    /// The SLURM user whose jobs are tracked: `squeue_user` when set, else
    /// the SSH user.
    pub fn effective_squeue_user(&self) -> (r: &str)
        ensures
            r@ == match self.squeue_user {
                Some(u) => u@,
                None => self.username@,
            },
    {
        match &self.squeue_user {
            Some(u) => u.as_str(),
            None => self.username.as_str(),
        }
    }

    /// The quota query template: the configured one, else
    /// [`DEFAULT_QUOTA_COMMAND`].
    pub fn quota_command_template(&self) -> (r: &str)
        ensures
            r@ == match self.quota_command {
                Some(c) => c@,
                None => DEFAULT_QUOTA_COMMAND@,
            },
    {
        match &self.quota_command {
            Some(c) => c.as_str(),
            None => DEFAULT_QUOTA_COMMAND,
        }
    }
}

impl Config {
    /// A settings value with no cluster and default notifications.
    pub fn empty() -> (r: Self)
        ensures
            r.clusters@.len() == 0,
            r.notifications.notify_states@.len() == 0,
            r.notifications.quiet_start is None,
            r.notifications.quiet_end is None,
            r.notifications.attach_error_tail_lines == 50,
            r.notifications.notify_pending_after_secs == 7200,
            r.notifications.notify_walltime_pct == 90,
    {
        Config { clusters: Vec::new(), notifications: NotificationConfig::defaults() }
    }

    /// Convert the legacy single-cluster settings into the multi-cluster
    /// shape: one cluster named `"default"` carrying the legacy fields,
    /// `/home` and `/scratch` when no disk paths were given, no quota paths,
    /// no quota command, and default notifications.
    pub fn from_legacy(legacy: LegacyConfig) -> (r: Config)
        ensures
            r.clusters@.len() == 1,
            r.clusters@[0].name@ == "default"@,
            r.clusters@[0].host == legacy.host,
            r.clusters@[0].port == legacy.port,
            r.clusters@[0].username == legacy.username,
            r.clusters@[0].key_path == legacy.key_path,
            r.clusters@[0].key_passphrase == legacy.key_passphrase,
            r.clusters@[0].poll_interval_secs == legacy.poll_interval_secs,
            r.clusters@[0].squeue_user == legacy.squeue_user,
            r.clusters@[0].slurm_conf_path == legacy.slurm_conf_path,
            match legacy.disk_paths {
                Some(d) => r.clusters@[0].disk_paths == d,
                None => strings_view(r.clusters@[0].disk_paths@) == default_disk_paths_spec(),
            },
            r.clusters@[0].quota_paths@.len() == 0,
            r.clusters@[0].quota_command is None,
            r.notifications.notify_states@.len() == 0,
            r.notifications.quiet_start is None,
            r.notifications.quiet_end is None,
            r.notifications.attach_error_tail_lines == 50,
            r.notifications.notify_pending_after_secs == 7200,
            r.notifications.notify_walltime_pct == 90,
    {
        let disk_paths = match legacy.disk_paths {
            Some(d) => d,
            None => default_disk_paths(),
        };
        let cluster = ClusterConfig {
            name: String::from_str("default"),
            host: legacy.host,
            port: legacy.port,
            username: legacy.username,
            key_path: legacy.key_path,
            key_passphrase: legacy.key_passphrase,
            poll_interval_secs: legacy.poll_interval_secs,
            squeue_user: legacy.squeue_user,
            slurm_conf_path: legacy.slurm_conf_path,
            disk_paths,
            quota_paths: Vec::new(),
            quota_command: None,
        };
        let mut clusters: Vec<ClusterConfig> = Vec::new();
        clusters.push(cluster);
        Config { clusters, notifications: NotificationConfig::defaults() }
    }

    /// Index of the first cluster called `name`, if any.
    pub fn find_cluster(&self, name: &str) -> (r: Option<usize>)
        ensures
            match r {
                Some(i) => i < self.clusters@.len() && self.clusters@[i as int].name@ == name@
                    && forall|k: int| 0 <= k < i ==> self.clusters@[k].name@ != name@,
                None => forall|k: int|
                    0 <= k < self.clusters@.len() ==> self.clusters@[k].name@ != name@,
            },
    {
        let want = chars_of(name);
        let mut i: usize = 0;
        while i < self.clusters.len()
            invariant
                i <= self.clusters@.len(),
                want@ == name@,
                forall|k: int| 0 <= k < i ==> self.clusters@[k].name@ != name@,
            decreases self.clusters.len() - i,
        {
            let have = chars_of(self.clusters[i].name.as_str());
            if eq_chars(&have, &want) {
                return Some(i);
            }
            i = i + 1;
        }
        None
    }
}

} // verus!
