use vitrum::autostart::{create_config_entry, AutostartManager};
use vitrum::config::{clamp_unit_bits, parse_direction, parse_layout_mode, saturating_i32};
use vitrum::ctl::{
    active_workspace_id, active_workspace_window, dispatch_request, join_command, notify_app_name, parse_fit_arg,
    parse_osd_icon, parse_query_target, resolve_target_window, wallpaper_request, QueryTarget, WallpaperArgError,
};
use vitrum::ipc::{EventCategory, IpcEvent, WindowInfo, WorkspaceInfo};
use vitrum::ipc_handler::{failure_response, osd_command, Failure, IpcCommand, IpcResponse, OsdIcon};
use vitrum::launcher::{simple_executable_name, spawn_preflight, SpawnPreflight};
use vitrum::layout::LayoutMode;
use vitrum::session::SessionEnvironment;
use vitrum::sorting::sort_strings;
use vitrum::state::Direction;
use vitrum::wallpaper::FitMode;
use vitrum::window::WindowId;

fn window(id: u64, workspace: u32) -> WindowInfo {
    WindowInfo {
        id: WindowId(id),
        title: format!("t{}", id),
        app_id: "app".to_string(),
        workspace,
        floating: false,
        fullscreen: false,
        opacity_bits: 0x3f80_0000,
        pinned: false,
        urgent: false,
    }
}

fn workspace(id: u32, active: bool) -> WorkspaceInfo {
    WorkspaceInfo { id, name: id.to_string(), window_count: 0, active }
}

#[test]
fn query_targets() {
    assert_eq!(parse_query_target("windows"), Some(QueryTarget::Windows));
    assert_eq!(parse_query_target("active"), Some(QueryTarget::Active));
    assert_eq!(parse_query_target("Windows"), None);
    assert_eq!(parse_query_target("bogus"), None);
}

#[test]
fn osd_icons_and_fit_args() {
    assert_eq!(parse_osd_icon("mic-mute"), OsdIcon::MicMute);
    assert_eq!(parse_osd_icon("Volume"), OsdIcon::Custom);
    assert_eq!(parse_fit_arg("center"), FitMode::Center);
    assert_eq!(parse_fit_arg("FIT"), FitMode::Fill);
}

#[test]
fn wallpaper_request_precedence() {
    match wallpaper_request(Some("/a.png".to_string()), "tile", Some("#fff".to_string()), Some("/d".to_string()), 5) {
        Ok(IpcCommand::WallpaperColor { color }) => assert_eq!(color, "#fff"),
        _ => panic!("colour wins"),
    }
    match wallpaper_request(Some("/a.png".to_string()), "tile", None, Some("/d".to_string()), 5) {
        Ok(IpcCommand::WallpaperSlideshow { dir, interval_secs }) => {
            assert_eq!(dir, "/d");
            assert_eq!(interval_secs, 5);
        }
        _ => panic!("slideshow before image"),
    }
    match wallpaper_request(Some("/a.png".to_string()), "tile", None, None, 5) {
        Ok(IpcCommand::WallpaperSet { path, fit }) => {
            assert_eq!(path, "/a.png");
            assert_eq!(fit, FitMode::Tile);
        }
        _ => panic!("image"),
    }
    assert!(matches!(wallpaper_request(None, "fill", None, None, 300), Err(WallpaperArgError::NothingToShow)));
}

#[test]
fn dispatch_and_spawn_requests() {
    assert!(matches!(dispatch_request("lock"), IpcCommand::Lock));
    assert!(matches!(dispatch_request("reload-config"), IpcCommand::ReloadConfig));
    match dispatch_request("firefox --new-window") {
        IpcCommand::Spawn { cmd } => assert_eq!(cmd, "firefox --new-window"),
        _ => panic!("expected a spawn"),
    }
    assert_eq!(join_command(&vec!["ls".to_string(), "-l".to_string(), "/tmp".to_string()]), "ls -l /tmp");
    assert_eq!(join_command(&vec![]), "");
    assert_eq!(notify_app_name(None), "vitrumctl");
    assert_eq!(notify_app_name(Some("x".to_string())), "x");
}

#[test]
fn active_workspace_window_is_newest() {
    let ws = vec![workspace(1, false), workspace(2, true), workspace(3, true)];
    assert_eq!(active_workspace_id(&ws), Some(2));
    assert_eq!(active_workspace_id(&[workspace(1, false)]), None);
    let windows = vec![window(5, 2), window(9, 1), window(7, 2), window(3, 2)];
    assert_eq!(active_workspace_window(&windows, 2), Some(WindowId(7)));
    assert_eq!(active_workspace_window(&windows, 4), None);
    assert_eq!(resolve_target_window(&windows, Some(9), None), Some(1));
    assert_eq!(resolve_target_window(&windows, None, Some(WindowId(3))), Some(3));
    assert_eq!(resolve_target_window(&windows, Some(42), Some(WindowId(3))), None);
    assert_eq!(resolve_target_window(&windows, None, None), None);
}

#[test]
fn osd_command_lines() {
    assert_eq!(osd_command(OsdIcon::CapsLock, None, &None), "vitrum-osd --icon capslock");
    assert_eq!(osd_command(OsdIcon::Brightness, Some(255), &None), "vitrum-osd --icon brightness --value 255");
}

#[test]
fn failure_messages() {
    match failure_response(Failure::Spawn, "boom") {
        IpcResponse::Error { msg } => assert_eq!(msg, "spawn failed: boom"),
        _ => panic!("expected an error"),
    }
    match failure_response(Failure::ReloadConfig, "bad toml") {
        IpcResponse::Error { msg } => assert_eq!(msg, "reload config failed: bad toml"),
        _ => panic!("expected an error"),
    }
}

#[test]
fn config_names() {
    assert_eq!(parse_direction("LEFT"), Some(Direction::Left));
    assert_eq!(parse_direction("down"), Some(Direction::Down));
    assert_eq!(parse_direction("diagonal"), None);
    assert_eq!(parse_layout_mode("master_stack"), Some(LayoutMode::MasterStack));
    assert_eq!(parse_layout_mode("Dwindle"), None);
}

#[test]
fn opacity_clamp_matches_float_clamp() {
    for v in [-3.0f32, -0.0, 0.0, 0.25, 1.0, 1.5, f32::INFINITY, f32::NEG_INFINITY] {
        assert_eq!(clamp_unit_bits(v.to_bits()), v.clamp(0.0, 1.0).to_bits(), "value {}", v);
    }
    assert!(f32::from_bits(clamp_unit_bits(f32::NAN.to_bits())).is_nan());
}

#[test]
fn saturating_counts() {
    assert_eq!(saturating_i32(25), 25);
    assert_eq!(saturating_i32(u32::MAX), i32::MAX);
}

#[test]
fn launcher_preflight() {
    assert!(matches!(spawn_preflight("   "), SpawnPreflight::Empty));
    match spawn_preflight("foot --server") {
        SpawnPreflight::Executable(e) => assert_eq!(e, "foot"),
        _ => panic!("expected an executable"),
    }
    assert!(matches!(spawn_preflight("echo hi | wc"), SpawnPreflight::ShellExpression));
    assert_eq!(simple_executable_name("  kitty  "), Some("kitty".to_string()));
}

#[test]
fn xwayland_display_name() {
    let mut env = SessionEnvironment::new(vec![]);
    assert_eq!(env.set_xwayland_display(0), ":0");
    assert_eq!(env.set_xwayland_display(12), ":12");
}

#[test]
fn strings_sort() {
    let v = sort_strings(vec!["b".to_string(), "a".to_string(), "ab".to_string()]);
    assert_eq!(v, vec!["a".to_string(), "ab".to_string(), "b".to_string()]);
}

#[test]
fn try_exec_checks_the_path() {
    let mut found = create_config_entry("sh".to_string(), "sh".to_string());
    found.try_exec = Some("sh".to_string());
    let mut missing = create_config_entry("x".to_string(), "x".to_string());
    missing.try_exec = Some("no-such-program-here-xyz".to_string());
    assert!(found.try_exec_ok());
    assert!(!missing.try_exec_ok());
    let manager = AutostartManager::with_config_entries(vec![found, missing], Some("GNOME".to_string()));
    assert_eq!(manager.execute(), vec![0]);
}

#[test]
fn events_sent_under_their_kind() {
    assert_eq!(IpcEvent::WorkspaceChanged { workspace: 2 }.category(), EventCategory::Workspace);
    assert_eq!(IpcEvent::WindowClosed { id: WindowId(3) }.category(), EventCategory::Window);
    assert_eq!(
        IpcEvent::WindowMoved { id: WindowId(3), from_workspace: 1, to_workspace: 2 }.category(),
        EventCategory::Window
    );
    assert_eq!(IpcEvent::WindowOpened { window: window(4, 1) }.category(), EventCategory::Window);
    assert_eq!(IpcEvent::WallpaperChanged.category(), EventCategory::Wallpaper);
    assert_eq!(IpcEvent::Clipboard.category(), EventCategory::Clipboard);
    let n = IpcEvent::Notification {
        app_name: "a".to_string(),
        summary: "s".to_string(),
        body: "b".to_string(),
        icon: None,
        timeout: None,
    };
    assert_eq!(n.category(), EventCategory::Notification);
}

#[test]
fn render_backends_named() {
    assert_eq!(vitrum::renderer::RenderBackend::Gles.name(), "GLES");
    assert_eq!(vitrum::renderer::RenderBackend::Vulkan.name(), "Vulkan");
}
