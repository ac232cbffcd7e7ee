//! Verified core of a SLURM job monitor.
use vstd::prelude::*;

pub mod commands;
pub mod config;
pub mod disks;
pub mod efficiency;
pub mod escalation;
pub mod history;
pub mod logtail;
pub mod notify_filter;
pub mod notifier;
pub mod number;
pub mod poller;
pub mod projects;
pub mod quota;
pub mod sacct;
pub mod scancel;
pub mod sinfo;
pub mod squeue;
pub mod supervisor;
pub mod sshare;
pub mod text;
pub mod ui_state;

verus! {

} // verus!
