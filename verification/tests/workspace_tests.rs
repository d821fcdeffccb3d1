use vitrum::output_id::{OutputId, OutputIdCounter};
use vitrum::output_workspaces::OutputWorkspaces;
use vitrum::window::{new_window_id, WindowIdCounter};
use vitrum::workspace::{Workspace, WorkspaceSet};

#[test]
fn test_workspace_new_is_empty() {
    let ws = Workspace::new(1);
    assert!(ws.is_empty());
    assert_eq!(ws.window_count(), 0);
}

#[test]
fn test_workspace_add_remove_windows() {
    let mut ids = WindowIdCounter::new();
    let mut ws = Workspace::new(1);
    let id1 = new_window_id(&mut ids);
    let id2 = new_window_id(&mut ids);

    ws.add_window(id1);
    ws.add_window(id2);
    assert_eq!(ws.window_count(), 2);
    assert!(ws.contains(id1));
    assert!(ws.contains(id2));

    assert!(ws.remove_window(id1));
    assert_eq!(ws.window_count(), 1);
    assert!(!ws.contains(id1));
    assert!(ws.contains(id2));

    assert!(!ws.remove_window(new_window_id(&mut ids)));
}

#[test]
fn test_workspace_focus_window() {
    let mut ids = WindowIdCounter::new();
    let mut ws = Workspace::new(1);
    let id = new_window_id(&mut ids);
    ws.add_window(id);

    ws.focus_window(id);
    assert_eq!(ws.focused_window, Some(id));
}

#[test]
fn test_workspace_focus_nonexistent_ignored() {
    let mut ids = WindowIdCounter::new();
    let mut ws = Workspace::new(1);
    let id = new_window_id(&mut ids);

    ws.focus_window(id);
    assert_eq!(ws.focused_window, None);
}

#[test]
fn test_workspace_remove_focused_updates_focus() {
    let mut ids = WindowIdCounter::new();
    let mut ws = Workspace::new(1);
    let id1 = new_window_id(&mut ids);
    let id2 = new_window_id(&mut ids);
    ws.add_window(id1);
    ws.add_window(id2);
    ws.focus_window(id1);

    ws.remove_window(id1);

    assert_ne!(ws.focused_window, Some(id1));
}

#[test]
fn test_workspace_set_defaults_to_workspace_1() {
    let set = WorkspaceSet::new();
    assert_eq!(set.active_id(), 1);
}

#[test]
fn test_workspace_set_has_ten_workspaces() {
    let set = WorkspaceSet::new();
    for id in 1..=10 {
        assert!(set.get(id).is_some());
    }
    assert!(set.get(11).is_none());
    assert!(set.get(0).is_none());
}

#[test]
fn test_workspace_set_switch_to() {
    let mut set = WorkspaceSet::new();
    set.switch_to(5);
    assert_eq!(set.active_id(), 5);
}

#[test]
fn test_workspace_set_switch_invalid_ignored() {
    let mut set = WorkspaceSet::new();
    set.switch_to(0);
    assert_eq!(set.active_id(), 1);
    set.switch_to(11);
    assert_eq!(set.active_id(), 1);
}

#[test]
fn test_workspace_set_next_wraps() {
    let mut set = WorkspaceSet::new();
    set.switch_to(10);
    set.next();
    assert_eq!(set.active_id(), 1);
}

#[test]
fn test_workspace_set_prev_wraps() {
    let mut set = WorkspaceSet::new();
    set.switch_to(1);
    set.prev();
    assert_eq!(set.active_id(), 10);
}

#[test]
fn test_workspace_set_move_window() {
    let mut ids = WindowIdCounter::new();
    let mut set = WorkspaceSet::new();
    let id = new_window_id(&mut ids);

    set.active_mut().add_window(id);
    assert!(set.active().contains(id));

    assert!(set.move_window(id, 3));
    assert!(!set.active().contains(id));
    assert!(set.get(3).unwrap().contains(id));
}

#[test]
fn test_workspace_set_move_nonexistent_returns_false() {
    let mut ids = WindowIdCounter::new();
    let mut set = WorkspaceSet::new();
    let id = new_window_id(&mut ids);
    assert!(!set.move_window(id, 5));
}

#[test]
fn test_workspace_set_move_to_invalid_workspace_returns_false() {
    let mut ids = WindowIdCounter::new();
    let mut set = WorkspaceSet::new();
    let id = new_window_id(&mut ids);
    set.active_mut().add_window(id);
    assert!(!set.move_window(id, 11));
}

#[test]
fn test_output_workspaces() {
    let mut counter = OutputIdCounter::new();
    let mut manager = OutputWorkspaces::new();

    let output1 = OutputId::next(&mut counter);
    let output2 = OutputId::next(&mut counter);

    manager.add_output(output1, Some("DP-1".to_string()));
    manager.add_output(output2, Some("DP-2".to_string()));

    assert_eq!(manager.active_workspace_id(output1), Some(1));
    assert_eq!(manager.active_workspace_id(output2), Some(1));

    manager.switch_workspace(output1, 3);
    assert_eq!(manager.active_workspace_id(output1), Some(3));
    assert_eq!(manager.active_workspace_id(output2), Some(1));
}

#[test]
fn test_focused_output() {
    let mut counter = OutputIdCounter::new();
    let mut manager = OutputWorkspaces::new();
    let output1 = OutputId::next(&mut counter);

    manager.add_output(output1, None);

    assert_eq!(manager.focused_output(), Some(output1));

    manager.switch_workspace_on_focused(5);
    assert_eq!(manager.active_workspace_id(output1), Some(5));
}

#[test]
fn workspace_names_are_their_numbers() {
    let set = WorkspaceSet::new();
    assert_eq!(set.get(7).unwrap().name, "7");
    assert_eq!(set.get(10).unwrap().name, "10");
}

#[test]
fn workspace_add_twice_keeps_one() {
    let mut ws = Workspace::new(2);
    ws.add_window(vitrum::window::WindowId(4));
    ws.add_window(vitrum::window::WindowId(4));
    assert_eq!(ws.window_count(), 1);
}

#[test]
fn workspace_next_then_prev_returns() {
    let mut set = WorkspaceSet::new();
    for id in 1..=10 {
        set.switch_to(id);
        set.next();
        set.prev();
        assert_eq!(set.active_id(), id);
    }
}

#[test]
fn output_workspaces_remove_moves_focus() {
    let mut counter = OutputIdCounter::new();
    let mut manager = OutputWorkspaces::new();
    let a = OutputId::next(&mut counter);
    let b = OutputId::next(&mut counter);
    manager.add_output(a, None);
    manager.add_output(b, None);
    manager.remove_output(a);
    assert!(!manager.has_output(a));
    assert!(manager.has_output(b));
    assert_eq!(manager.active_workspace_id(a), None);
}
