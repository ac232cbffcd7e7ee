//! Which panels of the UI are open, kept between runs.
use vstd::prelude::*;

verus! {

/// The UI layout remembered between runs.
#[derive(Debug, Clone)]
pub struct UiState {
    pub view_mode: String,
    pub collapsed_clusters: Vec<String>,
    pub open_health: Vec<String>,
    pub open_projects: Vec<String>,
    pub open_efficiency: Vec<String>,
    pub open_disks: Vec<String>,
}

impl Default for UiState {
    /// No view mode chosen and every list empty.
    fn default() -> (r: Self)
        ensures
            r.view_mode@.len() == 0,
            r.collapsed_clusters@.len() == 0,
            r.open_health@.len() == 0,
            r.open_projects@.len() == 0,
            r.open_efficiency@.len() == 0,
            r.open_disks@.len() == 0,
    {
        UiState {
            view_mode: String::new(),
            collapsed_clusters: Vec::new(),
            open_health: Vec::new(),
            open_projects: Vec::new(),
            open_efficiency: Vec::new(),
            open_disks: Vec::new(),
        }
    }
}

} // verus!
