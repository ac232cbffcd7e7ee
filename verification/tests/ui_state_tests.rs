use slurm_monitor::ui_state::UiState;

#[test]
fn default_ui_state_is_empty() {
    let s = UiState::default();
    assert!(s.view_mode.is_empty());
    assert!(s.collapsed_clusters.is_empty());
    assert!(s.open_health.is_empty());
    assert!(s.open_projects.is_empty());
    assert!(s.open_efficiency.is_empty());
    assert!(s.open_disks.is_empty());
}
