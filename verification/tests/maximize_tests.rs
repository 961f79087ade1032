use cosmic_panel::panel_maximize::{
    add_maximized, maximize_changes, maximize_update, maximized_outputs, remove_maximized,
    MaximizeUpdate, ToplevelState, WorkspaceGroupInfo, WorkspaceInfo,
};

fn groups() -> Vec<WorkspaceGroupInfo> {
    vec![
        WorkspaceGroupInfo { workspaces: vec![1, 2], outputs: vec![10] },
        WorkspaceGroupInfo { workspaces: vec![3], outputs: vec![20, 30] },
    ]
}

fn infos() -> Vec<WorkspaceInfo> {
    vec![
        WorkspaceInfo { handle: 1, active: true },
        WorkspaceInfo { handle: 2, active: false },
        WorkspaceInfo { handle: 3, active: true },
    ]
}

fn window(id: u64, workspaces: Vec<u64>, outputs: Vec<u64>, sticky: bool) -> ToplevelState {
    ToplevelState { id, workspaces, outputs, maximized: true, sticky }
}

#[test]
fn maximized_output_follows_active_workspace() {
    let maxed = vec![window(7, vec![1], vec![10], false)];
    let res = maximized_outputs(&groups(), &infos(), &maxed);
    assert!(res.contains(&10));
    assert!(!res.contains(&20));
    assert!(!res.contains(&30));
}

#[test]
fn inactive_workspace_is_not_maximized() {
    let maxed = vec![window(7, vec![2], vec![10], false)];
    let res = maximized_outputs(&groups(), &infos(), &maxed);
    assert!(res.is_empty());
}

#[test]
fn sticky_window_maximizes_its_outputs() {
    let maxed = vec![window(7, vec![2], vec![30], true)];
    let res = maximized_outputs(&groups(), &infos(), &maxed);
    assert!(res.contains(&30));
    assert!(!res.contains(&10));
}

#[test]
fn changes_in_output_order() {
    let res = maximize_changes(&vec![10, 20, 30], &vec![20], &vec![30, 10]);
    assert_eq!(res, vec![(10, true), (20, false), (30, true)]);
}

#[test]
fn add_then_remove_restores_outputs() {
    let outputs = vec![10, 20, 30];
    let mut maxed: Vec<ToplevelState> = Vec::new();
    let added = add_maximized(&groups(), &infos(), &mut maxed, window(5, vec![3], vec![20], false), &outputs);
    assert_eq!(added, vec![(20, true), (30, true)]);
    assert_eq!(maxed.len(), 1);
    let removed = remove_maximized(&groups(), &infos(), &mut maxed, 5, &outputs);
    assert_eq!(removed, Some(vec![(20, false), (30, false)]));
    assert!(maxed.is_empty());
}

#[test]
fn second_window_on_same_output_changes_nothing() {
    let outputs = vec![10, 20, 30];
    let mut maxed = vec![window(1, vec![1], vec![10], false)];
    let added = add_maximized(&groups(), &infos(), &mut maxed, window(2, vec![1], vec![10], false), &outputs);
    assert!(added.is_empty());
    let removed = remove_maximized(&groups(), &infos(), &mut maxed, 1, &outputs);
    assert_eq!(removed, Some(vec![]));
    assert_eq!(maxed.len(), 1);
    assert_eq!(maxed[0].id, 2);
}

#[test]
fn removing_untracked_window_is_none() {
    let outputs = vec![10];
    let mut maxed = vec![window(1, vec![1], vec![10], false)];
    assert_eq!(remove_maximized(&groups(), &infos(), &mut maxed, 9, &outputs), None);
    assert_eq!(maxed.len(), 1);
}

#[test]
fn update_decision() {
    assert_eq!(maximize_update(true, false), MaximizeUpdate::Add);
    assert_eq!(maximize_update(false, true), MaximizeUpdate::Remove);
    assert_eq!(maximize_update(true, true), MaximizeUpdate::Nothing);
    assert_eq!(maximize_update(false, false), MaximizeUpdate::Nothing);
}
