use vitrum::config::{apply_config, LayoutConfig};
use vitrum::ctl::windows_on_workspace;
use vitrum::geometry::{Rect, Size};
use vitrum::ipc::{IpcEvent, WindowInfo};
use vitrum::keybind::{Action, KeyModifiers, KeyState, Keybind, KeybindManager, Keysym};
use vitrum::launcher::{set_wayland_display_socket, wayland_display_socket, LaunchEnvironment};
use vitrum::layer_shell::{position_in_range, Anchor, ExclusiveZone, LayerSurfaceState, Margins};
use vitrum::layout::LayoutMode;
use vitrum::output::{OutputManager, OutputMap, OutputState, Transform};
use vitrum::output_id::{OutputId, OutputIdCounter};
use vitrum::output_workspaces::OutputWorkspaces;
use vitrum::session::SessionEnvironment;
use vitrum::session_lock::{add_lock_surface_for, SessionLockManager};
use vitrum::state::{Effect, State};
use vitrum::window::WindowId;

fn info(id: u64, workspace: u32) -> WindowInfo {
    WindowInfo {
        id: WindowId(id),
        title: String::new(),
        app_id: String::new(),
        workspace,
        floating: false,
        fullscreen: false,
        opacity_bits: 0x3f80_0000,
        pinned: false,
        urgent: false,
    }
}

#[test]
fn windows_on_workspace_keep_their_order() {
    let ws = vec![info(1, 2), info(2, 1), info(3, 2), info(4, 3)];
    assert_eq!(windows_on_workspace(&ws, 2), vec![0, 2]);
    assert!(windows_on_workspace(&ws, 9).is_empty());
}

fn lookup(env: &[(String, String)], name: &str) -> Option<String> {
    env.iter().rev().find(|(k, _)| k == name).map(|(_, v)| v.clone())
}

#[test]
fn child_environment_of_the_session() {
    let mut session = SessionEnvironment::new(vec![("GTK_THEME".to_string(), "Adwaita".to_string())]);
    session.set_wayland_socket("wayland-1");
    session.set_xwayland_display(2);
    let parent = vec![
        ("HOME".to_string(), "/home/u".to_string()),
        ("PATH".to_string(), "/bin".to_string()),
        ("SECRET_THING".to_string(), "x".to_string()),
    ];
    let env = session.child_env(&parent);
    assert_eq!(lookup(&env, "WAYLAND_DISPLAY").as_deref(), Some("wayland-1"));
    assert_eq!(lookup(&env, "DISPLAY").as_deref(), Some(":2"));
    assert_eq!(lookup(&env, "XDG_SESSION_TYPE").as_deref(), Some("wayland"));
    assert_eq!(lookup(&env, "XDG_CURRENT_DESKTOP").as_deref(), Some("Vitrum"));
    assert_eq!(lookup(&env, "XDG_CONFIG_HOME").as_deref(), Some("/home/u/.config"));
    assert_eq!(lookup(&env, "PATH").as_deref(), Some("/bin"));
    assert_eq!(lookup(&env, "GTK_THEME").as_deref(), Some("Adwaita"));
    assert_eq!(lookup(&env, "SECRET_THING"), None);
}

#[test]
fn first_wayland_socket_recorded_wins() {
    let mut env = LaunchEnvironment::new();
    assert!(wayland_display_socket(&env).is_none());
    set_wayland_display_socket(&mut env, "wayland-0".to_string());
    set_wayland_display_socket(&mut env, "wayland-9".to_string());
    assert_eq!(wayland_display_socket(&env).map(|s| s.as_str()), Some("wayland-0"));
}

#[test]
fn config_sets_default_layout_and_announces_wallpaper() {
    let mut state = State::new(OutputId(1));
    let config = LayoutConfig { gaps_inner: 4, gaps_outer: 6, default_mode: "master-stack".to_string() };
    apply_config(&config, &mut state);
    let layouts = state.layout_infos();
    assert!(layouts.iter().all(|l| l.mode == LayoutMode::MasterStack));
    let effects = state.take_effects();
    assert!(effects.iter().any(|e| matches!(e, Effect::Emit { event: IpcEvent::WallpaperChanged })));
}

#[test]
fn x11_windows_join_without_announcement() {
    let mut state = State::new(OutputId(1));
    let id = state.add_window_from_x11(40, Rect::new(5, 6, 300, 200));
    assert_eq!(state.window_workspace(id), Some(1));
    let effects = state.take_effects();
    assert!(!effects.iter().any(|e| matches!(e, Effect::Emit { event: IpcEvent::WindowOpened { .. } })));
}

#[test]
fn dead_windows_pruned_and_rendered_ones_listed() {
    let mut state = State::new(OutputId(1));
    let a = state.add_window(10);
    let b = state.add_window(11);
    assert_eq!(state.windows_for_render(), vec![a, b]);
    state.set_window_alive(a, false);
    state.prune_windows();
    assert_eq!(state.windows_for_render(), vec![b]);
    assert_eq!(state.window_workspace(a), None);
}

#[test]
fn layout_inputs_recorded() {
    let mut state = State::new(OutputId(1));
    let area = Rect::new(0, 30, 1920, 1050);
    state.set_layout_inputs(area, 960);
    let a = state.add_window(10);
    assert_eq!(state.window_workspace(a), Some(1));
}

fn output(ids: &mut OutputIdCounter, name: &str, w: i32, h: i32) -> OutputState {
    OutputState::new(OutputId::next(ids), name.to_string(), Size::new(w, h))
}

#[test]
fn primary_output_chosen_and_sized() {
    let mut ids = OutputIdCounter::new();
    let mut manager = OutputManager::new();
    assert_eq!(manager.primary_size(), Size::new(1920, 1080));
    let a = manager.add_output(output(&mut ids, "DP-1", 1920, 1080));
    let b = manager.add_output(output(&mut ids, "DP-2", 2560, 1440));
    assert_eq!(manager.primary_size(), Size::new(1920, 1080));
    manager.map_mut().set_primary(b);
    assert_eq!(manager.primary_size(), Size::new(2560, 1440));
    manager.map_mut().set_primary(OutputId(999));
    assert_eq!(manager.map().primary().map(|o| o.id), Some(b));
    let _ = a;

    let mut map = OutputMap::new();
    let mut o = output(&mut ids, "HDMI-1", 800, 600);
    o.set_transform(Transform::Flipped90);
    let id = map.add_output(o);
    assert_eq!(map.get(id).map(|o| o.transform), Some(Transform::Flipped90));
}

#[test]
fn workspaces_step_per_output() {
    let mut ow = OutputWorkspaces::new();
    ow.add_output(OutputId(1), None);
    ow.add_output(OutputId(2), None);
    ow.set_focused_output(OutputId(2));
    ow.next_workspace(OutputId(2));
    ow.next_workspace(OutputId(2));
    ow.prev_workspace(OutputId(1));
    let all = ow.all_outputs();
    assert_eq!(all.len(), 2);
    assert_eq!(all[0].1.active_id(), 10);
    assert_eq!(all[1].1.active_id(), 3);
    assert_eq!(ow.get_visible_windows(OutputId(3)), Vec::<WindowId>::new());
    assert_eq!(ow.get_workspace_windows(OutputId(1), 11), None);
    assert_eq!(ow.get_workspace_windows(OutputId(1), 4), Some(vec![]));
    let visible = ow.get_all_visible_windows();
    assert_eq!(visible.len(), 2);
    assert_eq!(visible[1].0, OutputId(2));
}

#[test]
fn lock_surface_added_on_resolved_output() {
    let mut manager = SessionLockManager::new();
    let mut state = State::new(OutputId(1));
    manager.lock();
    let r = add_lock_surface_for(&mut manager, &mut state, 77, (OutputId(1), Size::new(1280, 720)));
    assert_eq!(r.size, (1280, 720));
    assert!(manager.is_lock_surface(77));
    assert!(state.take_redraw_request());
}

#[test]
fn layer_position_range_checked() {
    let state = LayerSurfaceState {
        anchor: Anchor { top: true, bottom: false, left: true, right: false },
        size: Size::new(100, 30),
        margin: Margins { top: 0, right: 0, bottom: 0, left: 0 },
        exclusive_zone: ExclusiveZone::Neutral,
    };
    assert!(position_in_range(&state, Size::new(1920, 1080)));
    let wide = LayerSurfaceState { margin: Margins { top: 0, right: i32::MAX, bottom: 0, left: 0 }, ..state };
    assert!(!position_in_range(&wide, Size::new(-100, 1080)));
}

#[test]
fn keybinds_replaced() {
    let mut m = KeybindManager::new(Vec::new());
    assert!(m.match_keybind(Keysym(0x71), KeyModifiers::default(), KeyState::Pressed).is_none());
    m.update_keybinds(vec![Keybind { key: "q".to_string(), mods: Vec::new(), action: Action::Quit }]);
    assert!(matches!(m.match_keybind(Keysym(0x71), KeyModifiers::default(), KeyState::Pressed), Some(Action::Quit)));
}
