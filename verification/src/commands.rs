//! What the UI commands return for a cluster's panels.
use vstd::prelude::*;

use crate::projects::ProjectInfo;
use crate::sinfo::PartitionInfo;

verus! {

/// Partition availability and the user's fair-share factor, when sshare
/// gave one.
pub struct ClusterHealth {
    pub partitions: Vec<PartitionInfo>,
    pub fair_share: Option<String>,
}

/// The user's projects with their usage and budgets.
pub struct ClusterProjects {
    pub projects: Vec<ProjectInfo>,
}

} // verus!
