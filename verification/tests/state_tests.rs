use vitrum::commit::{handle_commit, CommitTarget};
use vitrum::config::{execute_action, handle_key, ActionOutcome};
use vitrum::geometry::Size;
use vitrum::ipc::IpcEvent;
use vitrum::ipc_handler::{handle_command, IpcCommand, IpcReply, IpcResponse, SpawnOrigin};
use vitrum::keybind::{Action, KeyModifiers, KeyState, Keybind, KeybindManager, Keysym};
use vitrum::layer_shell::{Layer, LayerShellManager, LayerSurfaceInfo};
use vitrum::layout::LayoutMode;
use vitrum::output::OutputChange;
use vitrum::output_id::{OutputId, OutputIdCounter};
use vitrum::render::stacked_surfaces_for_render;
use vitrum::session_lock::SessionLockManager;
use vitrum::state::{Direction, Effect, State};
use vitrum::window::WindowId;

/// A window manager with one output and a supply of surface keys.
struct Fixture {
    state: State,
    next_surface: u64,
}

impl Fixture {
    fn new() -> Fixture {
        Fixture { state: State::new(OutputId(1)), next_surface: 100 }
    }

    fn add_client(&mut self) -> usize {
        0
    }

    fn has_client(&self, _id: usize) -> bool {
        true
    }

    fn create_xdg_window(&mut self, _client: usize, _app_id: &str) -> Option<WindowId> {
        self.next_surface += 1;
        let id = self.state.add_window(self.next_surface);
        self.state.mark_redraw();
        Some(id)
    }

    fn visible_window_count(&self) -> usize {
        let active = self.state.active_workspace_id();
        self.state.workspaces().get(active).map(|ws| ws.window_count()).unwrap_or(0)
    }

    fn active_workspace(&self) -> u32 {
        self.state.active_workspace_id()
    }

    fn switch_workspace(&mut self, id: u32) {
        self.state.switch_workspace(id);
    }

    fn move_window_to_workspace(&mut self, id: WindowId, workspace: u32) {
        self.state.move_window_to_workspace(id, workspace);
    }

    fn set_layout(&mut self, mode: LayoutMode) {
        let active = self.state.active_workspace_id();
        self.state.set_workspace_layout(active, mode);
    }

    fn kill_workspace_window(&mut self, id: WindowId) {
        self.state.remove_window(id);
    }
}

#[test]
fn test_tiled_surfaces_excludes_floating() {
    let state = State::new(OutputId(1));
    assert!(state.tiled_surfaces().is_empty());
}

#[test]
fn test_floating_surfaces_includes_only_floating() {
    let state = State::new(OutputId(1));
    assert!(state.floating_surfaces().is_empty());
}

#[test]
fn test_visible_toplevel_surfaces_skips_other_workspaces() {
    let state = State::new(OutputId(1));
    assert!(state.visible_toplevel_surfaces().is_empty());
}

#[test]
fn test_stacked_surfaces_for_render_no_lock() {
    let state = State::new(OutputId(1));
    let surfaces = stacked_surfaces_for_render(&state, &SessionLockManager::new(), &LayerShellManager::new(), &[]);
    assert!(surfaces.is_empty());
}

#[test]
fn test_fixture_creates_successfully() {
    let fixture = Fixture::new();
    assert_eq!(fixture.active_workspace(), 1);
}

#[test]
fn test_fixture_connects_client() {
    let mut fixture = Fixture::new();
    let client_id = fixture.add_client();
    assert!(fixture.has_client(client_id));
}

#[test]
fn test_fixture_window_visible_in_workspace() {
    let mut fixture = Fixture::new();
    let client_id = fixture.add_client();
    fixture.create_xdg_window(client_id, "test-app");
    assert_eq!(fixture.visible_window_count(), 1);
}

#[test]
fn test_fixture_multiple_windows() {
    let mut fixture = Fixture::new();
    let client_id = fixture.add_client();
    fixture.create_xdg_window(client_id, "app-1");
    fixture.create_xdg_window(client_id, "app-2");
    assert_eq!(fixture.visible_window_count(), 2);
}

#[test]
fn test_fixture_workspace_switching() {
    let mut fixture = Fixture::new();
    let client_id = fixture.add_client();
    fixture.create_xdg_window(client_id, "app-1");
    assert_eq!(fixture.active_workspace(), 1);

    fixture.switch_workspace(3);
    assert_eq!(fixture.active_workspace(), 3);
    assert_eq!(fixture.visible_window_count(), 0);

    fixture.switch_workspace(1);
    assert_eq!(fixture.visible_window_count(), 1);
}

#[test]
fn test_fixture_workspace_move_window() {
    let mut fixture = Fixture::new();
    let client_id = fixture.add_client();
    let win = fixture.create_xdg_window(client_id, "app-1").unwrap();
    assert_eq!(fixture.visible_window_count(), 1);

    fixture.move_window_to_workspace(win, 5);
    assert_eq!(fixture.visible_window_count(), 0);

    fixture.switch_workspace(5);
    assert_eq!(fixture.visible_window_count(), 1);
}

#[test]
fn test_fixture_workspace_next_prev() {
    let mut fixture = Fixture::new();
    assert_eq!(fixture.active_workspace(), 1);

    fixture.switch_workspace(5);
    assert_eq!(fixture.active_workspace(), 5);

    fixture.switch_workspace(10);
    assert_eq!(fixture.active_workspace(), 10);

    fixture.switch_workspace(1);
    assert_eq!(fixture.active_workspace(), 1);
}

#[test]
fn test_fixture_layout_dwindle() {
    let mut fixture = Fixture::new();
    let client_id = fixture.add_client();
    fixture.create_xdg_window(client_id, "app-1");
    fixture.create_xdg_window(client_id, "app-2");
    fixture.set_layout(LayoutMode::Dwindle);
    assert_eq!(fixture.visible_window_count(), 2);
}

#[test]
fn test_fixture_layout_master_stack() {
    let mut fixture = Fixture::new();
    let client_id = fixture.add_client();
    fixture.create_xdg_window(client_id, "app-1");
    fixture.create_xdg_window(client_id, "app-2");
    fixture.set_layout(LayoutMode::MasterStack);
    assert_eq!(fixture.visible_window_count(), 2);
}

#[test]
fn test_fixture_layout_floating() {
    let mut fixture = Fixture::new();
    let client_id = fixture.add_client();
    fixture.create_xdg_window(client_id, "app-1");
    fixture.create_xdg_window(client_id, "app-2");
    fixture.set_layout(LayoutMode::Floating);
    assert_eq!(fixture.visible_window_count(), 2);
}

#[test]
fn test_fixture_many_windows() {
    let mut fixture = Fixture::new();
    let client_id = fixture.add_client();
    for i in 0..8 {
        fixture.create_xdg_window(client_id, &format!("app-{}", i));
    }
    assert_eq!(fixture.visible_window_count(), 8);
}

#[test]
fn test_fixture_workspace_isolation() {
    let mut fixture = Fixture::new();
    let client_id = fixture.add_client();

    fixture.create_xdg_window(client_id, "ws1-app");
    assert_eq!(fixture.visible_window_count(), 1);

    fixture.switch_workspace(2);
    fixture.create_xdg_window(client_id, "ws2-app");
    fixture.create_xdg_window(client_id, "ws2-app2");
    assert_eq!(fixture.visible_window_count(), 2);

    fixture.switch_workspace(1);
    assert_eq!(fixture.visible_window_count(), 1);
}

#[test]
fn test_fixture_remove_all_windows() {
    let mut fixture = Fixture::new();
    let client_id = fixture.add_client();
    let w1 = fixture.create_xdg_window(client_id, "app-1").unwrap();
    let w2 = fixture.create_xdg_window(client_id, "app-2").unwrap();
    let w3 = fixture.create_xdg_window(client_id, "app-3").unwrap();
    assert_eq!(fixture.visible_window_count(), 3);

    fixture.kill_workspace_window(w2);
    assert_eq!(fixture.visible_window_count(), 2);

    fixture.kill_workspace_window(w1);
    fixture.kill_workspace_window(w3);
    assert_eq!(fixture.visible_window_count(), 0);
}

#[test]
fn test_fixture_switch_to_invalid_workspace() {
    let mut fixture = Fixture::new();
    assert_eq!(fixture.active_workspace(), 1);

    fixture.switch_workspace(0);
    assert_eq!(fixture.active_workspace(), 1);

    fixture.switch_workspace(11);
    assert_eq!(fixture.active_workspace(), 1);
}

#[test]
fn test_fixture_move_to_same_workspace() {
    let mut fixture = Fixture::new();
    let client_id = fixture.add_client();
    let win = fixture.create_xdg_window(client_id, "app-1").unwrap();

    fixture.move_window_to_workspace(win, 1);
    assert_eq!(fixture.visible_window_count(), 1);
}

#[test]
fn window_keys_and_data_ids_differ() {
    let mut state = State::new(OutputId(1));
    let key = state.add_window(10);
    assert_eq!(key, WindowId(1));
    match handle_command(IpcCommand::GetActiveWindow, &mut state) {
        IpcReply::Respond(IpcResponse::ActiveWindow { window: Some(w) }) => assert_eq!(w.id, WindowId(2)),
        _ => panic!("expected the active window"),
    }
    let second = state.add_window(11);
    assert_eq!(second, WindowId(3));
}

#[test]
fn get_windows_lists_by_key() {
    let mut state = State::new(OutputId(1));
    state.add_window(10);
    state.add_window(11);
    state.add_window(12);
    match handle_command(IpcCommand::GetWindows, &mut state) {
        IpcReply::Respond(IpcResponse::Windows { windows }) => {
            let ids: Vec<u64> = windows.iter().map(|w| w.id.0).collect();
            assert_eq!(ids, vec![1, 3, 5]);
        }
        _ => panic!("expected the window list"),
    }
}

#[test]
fn get_workspaces_marks_the_active_one() {
    let mut state = State::new(OutputId(1));
    state.add_window(10);
    handle_command(IpcCommand::SwitchWorkspace { id: 4 }, &mut state);
    match handle_command(IpcCommand::GetWorkspaces, &mut state) {
        IpcReply::Respond(IpcResponse::Workspaces { workspaces }) => {
            assert_eq!(workspaces.len(), 10);
            assert_eq!(workspaces[0].window_count, 1);
            assert!(workspaces[3].active);
            assert!(!workspaces[0].active);
            assert_eq!(workspaces[3].name, "4");
        }
        _ => panic!("expected the workspace list"),
    }
}

#[test]
fn next_and_prev_workspace_wrap() {
    let mut state = State::new(OutputId(1));
    handle_command(IpcCommand::PrevWorkspace, &mut state);
    assert_eq!(state.active_workspace_id(), 10);
    handle_command(IpcCommand::NextWorkspace, &mut state);
    assert_eq!(state.active_workspace_id(), 1);
    handle_command(IpcCommand::NextWorkspace, &mut state);
    assert_eq!(state.active_workspace_id(), 2);
}

#[test]
fn set_layout_reported_by_get_layouts() {
    let mut state = State::new(OutputId(1));
    handle_command(IpcCommand::SetLayout { workspace: 3, mode: LayoutMode::Floating }, &mut state);
    match handle_command(IpcCommand::GetLayouts, &mut state) {
        IpcReply::Respond(IpcResponse::Layouts { layouts }) => {
            assert_eq!(layouts[2].mode, LayoutMode::Floating);
            assert_eq!(layouts[0].mode, LayoutMode::Dwindle);
            assert!(layouts[0].active);
        }
        _ => panic!("expected the layouts"),
    }
}

#[test]
fn osd_and_spawn_leave_work_outside() {
    let mut state = State::new(OutputId(1));
    match handle_command(
        IpcCommand::Osd { icon: vitrum::ipc_handler::OsdIcon::Volume, value: Some(40), text: Some("hi".to_string()) },
        &mut state,
    ) {
        IpcReply::Spawn { command, origin } => {
            assert_eq!(command, "vitrum-osd --icon volume --value 40 --text \"hi\"");
            assert_eq!(origin, SpawnOrigin::IpcOsd);
        }
        _ => panic!("expected a spawn"),
    }
    match handle_command(IpcCommand::Spawn { cmd: "foot".to_string() }, &mut state) {
        IpcReply::Spawn { command, origin } => {
            assert_eq!(command, "foot");
            assert_eq!(origin, SpawnOrigin::Ipc);
        }
        _ => panic!("expected a spawn"),
    }
    assert!(matches!(handle_command(IpcCommand::Lock, &mut state), IpcReply::SpawnLockClient));
    assert!(matches!(handle_command(IpcCommand::ReloadConfig, &mut state), IpcReply::ReloadConfig));
}

#[test]
fn notify_is_announced() {
    let mut state = State::new(OutputId(1));
    state.take_effects();
    let reply = handle_command(
        IpcCommand::Notify {
            app_name: "a".to_string(),
            summary: "s".to_string(),
            body: "b".to_string(),
            icon: None,
            timeout: Some(5),
        },
        &mut state,
    );
    assert!(matches!(reply, IpcReply::Respond(IpcResponse::Success)));
    let effects = state.take_effects();
    assert_eq!(effects.len(), 1);
    match &effects[0] {
        Effect::Emit { event: IpcEvent::Notification { summary, timeout, .. } } => {
            assert_eq!(summary, "s");
            assert_eq!(*timeout, Some(5));
        }
        _ => panic!("expected a notification"),
    }
}

#[test]
fn float_window_via_ipc() {
    let mut state = State::new(OutputId(1));
    let id = state.add_window(10);
    handle_command(IpcCommand::FloatWindow { id, floating: true }, &mut state);
    assert_eq!(state.floating_surfaces().len(), 1);
    assert!(state.tiled_surfaces().is_empty());
}

#[test]
fn focus_direction_moves_between_tiled_windows() {
    let mut state = State::new(OutputId(1));
    state.add_window(10);
    state.add_window(11);
    assert_eq!(state.focused_window_id(), Some(WindowId(3)));
    assert!(state.focus_direction(Direction::Left));
    assert_eq!(state.focused_window_id(), Some(WindowId(1)));
    assert!(!state.focus_direction(Direction::Left));
}

#[test]
fn actions_on_focused_window() {
    let mut state = State::new(OutputId(1));
    state.add_window(10);
    let second = state.add_window(11);
    let out = execute_action(&Action::MoveToWorkspace { workspace: 6 }, &mut state);
    assert!(matches!(out, ActionOutcome::Done));
    assert_eq!(state.window_workspace(second), Some(6));
    assert!(matches!(execute_action(&Action::Quit, &mut state), ActionOutcome::Quit));
    match execute_action(&Action::Dispatch { cmd: "reload-config".to_string() }, &mut state) {
        ActionOutcome::ReloadConfig => {}
        _ => panic!("expected a reload"),
    }
    match execute_action(&Action::Dispatch { cmd: "lock".to_string() }, &mut state) {
        ActionOutcome::SpawnLockClient { origin } => assert_eq!(origin, SpawnOrigin::KeybindDispatch),
        _ => panic!("expected the lock client"),
    }
}

#[test]
fn swap_window_action_swaps_with_next_on_workspace() {
    let mut state = State::new(OutputId(1));
    let a = state.add_window(10);
    let b = state.add_window(11);
    execute_action(&Action::SwapWindow, &mut state);
    let order = state.stacking_order().to_vec();
    assert_eq!(order, vec![b, a]);
}

#[test]
fn unknown_direction_and_layout_do_nothing() {
    let mut state = State::new(OutputId(1));
    state.add_window(10);
    let before = state.focused_window_id();
    execute_action(&Action::FocusDirection { dir: "sideways".to_string() }, &mut state);
    assert_eq!(state.focused_window_id(), before);
    execute_action(&Action::SetLayout { mode: "spiral".to_string() }, &mut state);
    match handle_command(IpcCommand::GetLayouts, &mut state) {
        IpcReply::Respond(IpcResponse::Layouts { layouts }) => assert_eq!(layouts[0].mode, LayoutMode::Dwindle),
        _ => panic!("expected the layouts"),
    }
    execute_action(&Action::SetLayout { mode: "master-stack".to_string() }, &mut state);
    match handle_command(IpcCommand::GetLayouts, &mut state) {
        IpcReply::Respond(IpcResponse::Layouts { layouts }) => assert_eq!(layouts[0].mode, LayoutMode::MasterStack),
        _ => panic!("expected the layouts"),
    }
}

#[test]
fn commits_go_to_lock_layer_or_window() {
    let mut state = State::new(OutputId(1));
    let mut locks = SessionLockManager::new();
    let mut layers = LayerShellManager::new();
    layers.add_surface(LayerSurfaceInfo::new(50, Layer::Top, "bar".to_string(), None));
    locks.lock();
    locks.add_lock_surface(60, OutputId(1), Size::new(10, 10));
    state.add_window(70);

    assert_eq!(handle_commit(&mut state, &locks, &mut layers, 60, true, None, None), CommitTarget::LockSurface);
    assert_eq!(handle_commit(&mut state, &locks, &mut layers, 50, true, None, None), CommitTarget::LayerSurface);
    assert_eq!(layers.mapped_surfaces_ordered().len(), 1);
    assert_eq!(
        handle_commit(&mut state, &locks, &mut layers, 70, true, Some("term".to_string()), None),
        CommitTarget::Other { metadata_changed: true }
    );
    assert_eq!(
        handle_commit(&mut state, &locks, &mut layers, 70, true, Some("term".to_string()), None),
        CommitTarget::Other { metadata_changed: false }
    );
    match handle_command(IpcCommand::GetWindows, &mut state) {
        IpcReply::Respond(IpcResponse::Windows { windows }) => assert_eq!(windows[0].title, "term"),
        _ => panic!("expected the window list"),
    }
}

#[test]
fn bound_key_runs_action_and_is_kept() {
    let mut state = State::new(OutputId(1));
    let binds = KeybindManager::new(vec![Keybind {
        key: "3".to_string(),
        mods: vec!["super".to_string()],
        action: Action::SwitchWorkspace { workspace: 3 },
    }]);
    let sup = KeyModifiers { ctrl: false, shift: false, alt: false, super_: true };
    assert!(handle_key(&mut state, &binds, Keysym(0x33), KeyModifiers::default(), KeyState::Pressed).is_none());
    assert!(handle_key(&mut state, &binds, Keysym(0x33), sup, KeyState::Released).is_none());
    assert_eq!(state.active_workspace_id(), 1);
    assert!(matches!(handle_key(&mut state, &binds, Keysym(0x33), sup, KeyState::Pressed), Some(ActionOutcome::Done)));
    assert_eq!(state.active_workspace_id(), 3);
}

#[test]
fn output_changes_relayout() {
    let mut ids = OutputIdCounter::new();
    let mut state = State::new(OutputId(1));
    assert!(state.process_output_changes().is_empty());
    let first = state.output_bound("DP-1".to_string(), &mut ids).unwrap();
    assert_eq!(state.output_id(), Some(first));
    assert_eq!(state.output_bound("DP-1".to_string(), &mut ids), None);
    let again = state.register_output("DP-1".to_string(), Size::new(800, 600), &mut ids);
    assert_eq!(again, first);
    let second = state.register_output("HDMI-1".to_string(), Size::new(640, 480), &mut ids);
    assert_ne!(second, first);
    assert_eq!(state.output_manager().map().get(second).unwrap().size, Size::new(640, 480));
    state.take_redraw_request();
    let changes = state.process_output_changes();
    assert_eq!(changes.len(), 4);
    assert!(matches!(changes[0], OutputChange::Added(id) if id == first));
    assert!(state.take_redraw_request());
    assert!(state.process_output_changes().is_empty());
}

fn flags_of(state: &State, id: WindowId) -> (bool, bool, bool) {
    let infos = state.window_infos();
    let w = infos.iter().find(|w| w.id == id).expect("window listed");
    (w.floating, w.fullscreen, w.pinned)
}

#[test]
fn toggles_twice_give_back_the_flags() {
    let mut state = State::new(OutputId(1));
    let a = state.add_window(7);
    let _b = state.add_window(8);
    let before = flags_of(&state, a);
    state.toggle_floating(a);
    assert_ne!(flags_of(&state, a), before);
    state.toggle_floating(a);
    assert_eq!(flags_of(&state, a), before);
    state.toggle_fullscreen(a);
    assert_ne!(flags_of(&state, a), before);
    state.toggle_fullscreen(a);
    assert_eq!(flags_of(&state, a), before);
    state.toggle_pinned(a);
    assert_eq!(flags_of(&state, a), (false, false, true));
    state.toggle_pinned(a);
    assert_eq!(flags_of(&state, a), before);
}

#[test]
fn moved_window_is_on_its_new_workspace() {
    let mut state = State::new(OutputId(1));
    let a = state.add_window(7);
    state.move_window_to_workspace(a, 4);
    assert_eq!(state.window_workspace(a), Some(4));
    assert!(state.workspaces().get(4).unwrap().window_count() == 1);
    assert!(state.workspaces().get(1).unwrap().window_count() == 0);
}

#[test]
fn removed_window_is_gone() {
    let mut state = State::new(OutputId(1));
    let a = state.add_window(7);
    let b = state.add_window(8);
    state.remove_window(a);
    assert_eq!(state.window_workspace(a), None);
    assert_eq!(state.stacking_order(), &[b]);
    assert_eq!(state.windows_for_render(), vec![b]);
}

#[test]
fn damaged_region_recorded_with_redraw() {
    let mut state = State::new(OutputId(1));
    state.take_redraw_request();
    let region = vitrum::geometry::Rect::new(10, 20, 30, 40);
    state.mark_redraw_with_damage(region);
    assert!(state.take_redraw_request());
    assert!(state.damage_tracker().has_damage());
}

#[test]
fn popups_placed_against_the_focused_window() {
    let mut state = State::new(OutputId(1));
    assert_eq!(state.parent_geometry(), vitrum::geometry::Rect::new(0, 0, 1920, 1080));
    let a = state.add_window(40);
    state.toggle_floating(a);
    assert_eq!(state.parent_geometry(), vitrum::geometry::Rect::new(384, 216, 1152, 648));
}

fn urgent_of(state: &State, id: WindowId) -> bool {
    state.window_infos().iter().find(|w| w.id == id).unwrap().urgent
}

#[test]
fn activation_marks_unfocused_windows_urgent() {
    let mut state = State::new(OutputId(1));
    let a = state.add_window(7);
    let b = state.add_window(8);
    state.request_activation(8, 0);
    assert!(!urgent_of(&state, b));
    state.request_activation(7, 11);
    assert!(!urgent_of(&state, a));
    state.take_redraw_request();
    state.request_activation(7, 3);
    assert!(urgent_of(&state, a));
    assert!(state.take_redraw_request());
    state.request_activation(99, 0);
}

#[test]
fn focus_change_refreshes_the_handle() {
    let mut state = State::new(OutputId(1));
    let a = state.add_window(7);
    state.take_effects();
    state.focus_changed(Some(7));
    assert!(matches!(state.take_effects().as_slice(), [Effect::ForeignToplevelMetadata { window }] if *window == a));
    state.focus_changed(Some(12345));
    assert!(state.take_effects().is_empty());
    state.focus_changed(None);
    assert!(state.take_redraw_request());
    state.sync_foreign_toplevel_metadata(WindowId(999));
    assert!(state.take_effects().is_empty());
}

#[test]
fn stacked_toplevels_follow_the_visible_ones() {
    let mut state = State::new(OutputId(1));
    state.add_window(7);
    state.add_window(8);
    let visible: Vec<(u64, vitrum::geometry::Point)> =
        state.visible_toplevel_surfaces().into_iter().map(|(s, p, _)| (s, p)).collect();
    assert_eq!(state._stacked_toplevel_surfaces(), visible);
    assert_eq!(visible.len(), 2);
}

#[test]
fn focused_workspace_set_is_the_shown_one() {
    let mut state = State::new(OutputId(1));
    state.switch_workspace(3);
    assert_eq!(state.focused_workspace_set().active_id(), 3);
}
