use vstd::prelude::*;
use crate::digits::{decimal, push_decimal};
use crate::ipc::{IpcEvent, OutputInfo, WindowInfo, WorkspaceInfo, WorkspaceLayoutInfo};
use crate::layout::LayoutMode;
use crate::output::rank;
use crate::state::{
    focus_direction_post, focus_window_post, focused_window, has_key, data_of, info_of, infos_by_key, kill_window_post,
    layout_info_of, layout_set, output_info_matches, resized_by, same_focus, same_places, same_windows, entry_relaid,
    entry_replaced, redraw_step, swap_windows_post, switch_workspace_post, toggle_fullscreen_post, with_flags,
    with_opacity, workspace_info_of, workspace_move_done, Direction, Effect, State, same_redraw,
};
use crate::text::{push_char, push_str};
use crate::theme::{ThemePatch, ThemeSnapshot};
use crate::wallpaper::FitMode;
use crate::window::{WindowFlags, WindowId};
use crate::workspace::{next_id, prev_id, WORKSPACE_COUNT};

verus! {

/// The icon an on-screen display shows.
#[derive(Debug, Clone, Copy, PartialEq, Eq, Structural)]
pub enum OsdIcon {
    Volume,
    Brightness,
    Mute,
    MicMute,
    CapsLock,
    Custom,
}

/// The name the on-screen display program takes for an icon.
pub open spec fn osd_icon_name(icon: OsdIcon) -> Seq<char> {
    match icon {
        OsdIcon::Volume => "volume"@,
        OsdIcon::Brightness => "brightness"@,
        OsdIcon::Mute => "mute"@,
        OsdIcon::MicMute => "mic-mute"@,
        OsdIcon::CapsLock => "capslock"@,
        OsdIcon::Custom => "custom"@,
    }
}

impl OsdIcon {
    /// The name the on-screen display program takes for this icon.
    pub fn name(&self) -> (r: String)
        ensures
            r@ == osd_icon_name(*self),
    {
        match self {
            OsdIcon::Volume => "volume".to_owned(),
            OsdIcon::Brightness => "brightness".to_owned(),
            OsdIcon::Mute => "mute".to_owned(),
            OsdIcon::MicMute => "mic-mute".to_owned(),
            OsdIcon::CapsLock => "capslock".to_owned(),
            OsdIcon::Custom => "custom".to_owned(),
        }
    }
}

/// The characters of an optional text (none for `None`).
pub open spec fn opt_text(t: Option<String>) -> Option<Seq<char>> {
    match t {
        Some(s) => Some(s@),
        None => None,
    }
}

/// The command line that shows an on-screen display: the icon, then the
/// value and the quoted text where they are given.
pub open spec fn osd_command_line(icon: OsdIcon, value: Option<u8>, text: Option<Seq<char>>) -> Seq<char> {
    "vitrum-osd --icon "@ + osd_icon_name(icon) + (match value {
        Some(v) => " --value "@ + decimal(v as nat),
        None => Seq::empty(),
    }) + (match text {
        Some(t) => " --text "@ + seq!['"'] + t + seq!['"'],
        None => Seq::empty(),
    })
}

/// The command line that shows an on-screen display.
pub fn osd_command(icon: OsdIcon, value: Option<u8>, text: &Option<String>) -> (r: String)
    ensures
        r@ == osd_command_line(icon, value, opt_text(*text)),
{
    let mut cmd = "vitrum-osd --icon ".to_owned();
    let name = icon.name();
    push_str(&mut cmd, name.as_str());
    let ghost head = cmd@;
    if let Some(v) = value {
        push_str(&mut cmd, " --value ");
        push_decimal(&mut cmd, v as u64);
    }
    let ghost mid = cmd@;
    assert(mid == head + (match value {
        Some(v) => " --value "@ + decimal(v as nat),
        None => Seq::<char>::empty(),
    }));
    if let Some(t) = text {
        push_str(&mut cmd, " --text ");
        push_char(&mut cmd, '"');
        push_str(&mut cmd, t.as_str());
        push_char(&mut cmd, '"');
    }
    assert(cmd@ =~= osd_command_line(icon, value, opt_text(*text)));
    cmd
}

/// On whose behalf a command is spawned; the launcher records it.
#[derive(Debug, Clone, Copy, PartialEq, Eq, Structural)]
pub enum SpawnOrigin {
    Ipc,
    IpcLock,
    IpcOsd,
    Config,
    KeybindLock,
    KeybindDispatch,
}

/// The label the launcher records for an origin.
pub open spec fn origin_label(o: SpawnOrigin) -> Seq<char> {
    match o {
        SpawnOrigin::Ipc => "ipc"@,
        SpawnOrigin::IpcLock => "ipc-lock"@,
        SpawnOrigin::IpcOsd => "ipc-osd"@,
        SpawnOrigin::Config => "config"@,
        SpawnOrigin::KeybindLock => "keybind-lock"@,
        SpawnOrigin::KeybindDispatch => "keybind-dispatch"@,
    }
}

impl SpawnOrigin {
    /// The label the launcher records for this origin.
    pub fn label(&self) -> (r: String)
        ensures
            r@ == origin_label(*self),
    {
        match self {
            SpawnOrigin::Ipc => "ipc".to_owned(),
            SpawnOrigin::IpcLock => "ipc-lock".to_owned(),
            SpawnOrigin::IpcOsd => "ipc-osd".to_owned(),
            SpawnOrigin::Config => "config".to_owned(),
            SpawnOrigin::KeybindLock => "keybind-lock".to_owned(),
            SpawnOrigin::KeybindDispatch => "keybind-dispatch".to_owned(),
        }
    }
}

/// A request that arrived on the IPC command socket.
#[derive(Debug)]
pub enum IpcCommand {
    FocusWindow { id: WindowId },
    MoveToWorkspace { window: WindowId, workspace: u32 },
    SetLayout { workspace: u32, mode: LayoutMode },
    FloatWindow { id: WindowId, floating: bool },
    KillWindow { id: WindowId },
    GetWindows,
    GetWorkspaces,
    GetOutputs,
    GetLayouts,
    GetState,
    ReloadConfig,
    SwitchWorkspace { id: u32 },
    NextWorkspace,
    PrevWorkspace,
    ToggleFullscreen { id: WindowId },
    FocusDirection { dir: Direction },
    Spawn { cmd: String },
    WallpaperSet { path: String, fit: FitMode },
    WallpaperColor { color: String },
    WallpaperSlideshow { dir: String, interval_secs: u32 },
    SetTheme { patch: ThemePatch },
    Osd { icon: OsdIcon, value: Option<u8>, text: Option<String> },
    GetTheme,
    GetEnvironment,
    GetActiveWindow,
    SwapWindow { a: WindowId, b: WindowId },
    /// The requested opacity, as the bits of an `f32` already clamped to
    /// the range 0 to 1.
    SetOpacity { id: WindowId, value_bits: u32 },
    ResizeDelta { id: WindowId, dw: i32, dh: i32 },
    Lock,
    Notify { app_name: String, summary: String, body: String, icon: Option<String>, timeout: Option<u32> },
    ShowClipboard,
}

/// The answer sent back on the IPC command socket. The theme, which the
/// window manager does not keep, is added to a `State` answer around it.
#[derive(Debug)]
pub enum IpcResponse {
    Success,
    Error { msg: String },
    Windows { windows: Vec<WindowInfo> },
    Workspaces { workspaces: Vec<WorkspaceInfo> },
    Outputs { outputs: Vec<OutputInfo> },
    Layouts { layouts: Vec<WorkspaceLayoutInfo> },
    State {
        focused_window: Option<WindowId>,
        active_workspace: u32,
        windows: Vec<WindowInfo>,
        workspaces: Vec<WorkspaceInfo>,
    },
    ActiveWindow { window: Option<WindowInfo> },
    Theme { theme: ThemeSnapshot },
}

/// What becomes of an IPC command: an answer, or work for the compositor
/// around the window manager, which then answers as each variant says.
#[derive(Debug)]
pub enum IpcReply {
    Respond(IpcResponse),
    /// Spawn `command` for `origin`. For `Ipc`, a failure is answered with
    /// an error (see `failure_response`); otherwise the answer is `Success`.
    Spawn { command: String, origin: SpawnOrigin },
    /// Spawn the configured lock command; a failure is answered with an error.
    SpawnLockClient,
    /// Reload the configuration and apply it; a failure is answered with an error.
    ReloadConfig,
    /// Show the image at `path`, fitted by `fit`, ask for a redraw, answer `Success`.
    WallpaperImage { path: String, fit: FitMode },
    /// Show the solid colour `color`, ask for a redraw, answer `Success`.
    WallpaperColor { color: String },
    /// Show the images of `dir` in turn, ask for a redraw, answer `Success`.
    WallpaperSlideshow { dir: String, interval_secs: u32 },
    /// Apply `patch` to the theme settings, lay the windows out with the new
    /// gaps and ask for a redraw (`apply_theme_patch`), pass the theme on,
    /// answer `Success`.
    ApplyTheme { patch: ThemePatch },
    /// Answer with the current theme (`build_theme_snapshot`).
    Theme,
    /// Answer with the session environment.
    Environment,
}

/// Which outside work failed.
#[derive(Debug, Clone, Copy, PartialEq, Eq, Structural)]
pub enum Failure {
    Spawn,
    LockSpawn,
    ReloadConfig,
}

/// The prefix of the error answered when outside work fails.
pub open spec fn failure_prefix(f: Failure) -> Seq<char> {
    match f {
        Failure::Spawn => "spawn failed: "@,
        Failure::LockSpawn => "lock spawn failed: "@,
        Failure::ReloadConfig => "reload config failed: "@,
    }
}

/// The error answered when outside work failed with `detail`.
pub fn failure_response(f: Failure, detail: &str) -> (r: IpcResponse)
    ensures
        r matches IpcResponse::Error { msg } && msg@ == failure_prefix(f) + detail@,
{
    let mut msg = match f {
        Failure::Spawn => "spawn failed: ".to_owned(),
        Failure::LockSpawn => "lock spawn failed: ".to_owned(),
        Failure::ReloadConfig => "reload config failed: ".to_owned(),
    };
    push_str(&mut msg, detail);
    IpcResponse::Error { msg }
}

/// What handling IPC command `cmd` in state `a` leaves: the state `b` and
/// the reply `r`.
pub open spec fn command_handled(a: State, cmd: IpcCommand, b: State, r: IpcReply) -> bool {
    match cmd {
        IpcCommand::FocusWindow { id } => r == IpcReply::Respond(IpcResponse::Success) && focus_window_post(a, b, id),
        IpcCommand::MoveToWorkspace { window, workspace } => r == IpcReply::Respond(IpcResponse::Success)
            && workspace_move_done(a, b, window, workspace),
        IpcCommand::SetLayout { workspace, mode } => r == IpcReply::Respond(IpcResponse::Success) && layout_set(a, b, workspace, mode),
        IpcCommand::FloatWindow { id, floating } => r == IpcReply::Respond(IpcResponse::Success) && entry_relaid(a, b, id, {
            let d = data_of(a.spec_windows(), id);
            with_flags(d, WindowFlags { floating, ..d.flags })
        }),
        IpcCommand::KillWindow { id } => r == IpcReply::Respond(IpcResponse::Success) && kill_window_post(a, b, id),
        IpcCommand::GetWindows => b == a && (r matches IpcReply::Respond(IpcResponse::Windows { windows })
            && infos_by_key(a.spec_windows(), windows@)),
        IpcCommand::GetWorkspaces => b == a && (r matches IpcReply::Respond(IpcResponse::Workspaces { workspaces })
            && workspaces_listed(a, workspaces@)),
        IpcCommand::GetOutputs => b == a && (r matches IpcReply::Respond(IpcResponse::Outputs { outputs })
            && outputs_listed(a, outputs@)),
        IpcCommand::GetLayouts => b == a && (r matches IpcReply::Respond(IpcResponse::Layouts { layouts })
            && layouts_listed(a, layouts@)),
        IpcCommand::GetState => b == a && (r matches IpcReply::Respond(
            IpcResponse::State { focused_window: f, active_workspace, windows, workspaces },
        ) && f == focused_window(a) && active_workspace == a.active_ws()
            && infos_by_key(a.spec_windows(), windows@) && workspaces_listed(a, workspaces@)),
        IpcCommand::ReloadConfig => b == a && r == IpcReply::ReloadConfig,
        IpcCommand::SwitchWorkspace { id } => r == IpcReply::Respond(IpcResponse::Success) && switch_workspace_post(a, b, id),
        IpcCommand::NextWorkspace => r == IpcReply::Respond(IpcResponse::Success) && switch_workspace_post(a, b, next_id(a.active_ws())),
        IpcCommand::PrevWorkspace => r == IpcReply::Respond(IpcResponse::Success) && switch_workspace_post(a, b, prev_id(a.active_ws())),
        IpcCommand::ToggleFullscreen { id } => r == IpcReply::Respond(IpcResponse::Success) && toggle_fullscreen_post(a, b, id),
        IpcCommand::FocusDirection { dir } => r == IpcReply::Respond(IpcResponse::Success) && focus_direction_post(a, b, dir),
        IpcCommand::Spawn { cmd } => b == a && r == IpcReply::Spawn { command: cmd, origin: SpawnOrigin::Ipc },
        IpcCommand::WallpaperSet { path, fit } => b == a && r == IpcReply::WallpaperImage { path, fit },
        IpcCommand::WallpaperColor { color } => b == a && r == IpcReply::WallpaperColor { color },
        IpcCommand::WallpaperSlideshow { dir, interval_secs } => b == a && r == IpcReply::WallpaperSlideshow { dir, interval_secs },
        IpcCommand::SetTheme { patch } => b == a && r == IpcReply::ApplyTheme { patch },
        IpcCommand::Osd { icon, value, text } => b == a && (r matches IpcReply::Spawn { command, origin }
            && origin == SpawnOrigin::IpcOsd && command@ == osd_command_line(icon, value, opt_text(text))),
        IpcCommand::GetTheme => b == a && r == IpcReply::Theme,
        IpcCommand::GetEnvironment => b == a && r == IpcReply::Environment,
        IpcCommand::GetActiveWindow => b == a && (r matches IpcReply::Respond(IpcResponse::ActiveWindow { window })
            && window == active_window_of(a)),
        IpcCommand::SwapWindow { a: x, b: y } => r == IpcReply::Respond(IpcResponse::Success) && swap_windows_post(a, b, x, y),
        IpcCommand::SetOpacity { id, value_bits } => r == IpcReply::Respond(IpcResponse::Success) && opacity_set(a, b, id, value_bits),
        IpcCommand::ResizeDelta { id, dw, dh } => r == IpcReply::Respond(IpcResponse::Success) && entry_relaid(
            a,
            b,
            id,
            resized_by(data_of(a.spec_windows(), id), dw, dh),
        ),
        IpcCommand::Lock => b == a && r == IpcReply::SpawnLockClient,
        IpcCommand::Notify { app_name, summary, body, icon, timeout } => r == IpcReply::Respond(IpcResponse::Success)
            && announced(a, b, IpcEvent::Notification { app_name, summary, body, icon, timeout }),
        IpcCommand::ShowClipboard => r == IpcReply::Respond(IpcResponse::Success) && announced(a, b, IpcEvent::Clipboard),
    }
}

/// `ws` tells of the ten workspaces of `s`, by number.
pub open spec fn workspaces_listed(s: State, ws: Seq<WorkspaceInfo>) -> bool {
    &&& ws.len() == WORKSPACE_COUNT
    &&& forall|i: int| 0 <= i < ws.len() ==> #[trigger] ws[i] == workspace_info_of(s.spec_workspaces().spec_workspaces()[i], s.active_ws())
}

/// `ls` tells of the layouts of the ten workspaces of `s`, by number.
pub open spec fn layouts_listed(s: State, ls: Seq<WorkspaceLayoutInfo>) -> bool {
    &&& ls.len() == WORKSPACE_COUNT
    &&& forall|i: int| 0 <= i < ls.len() ==> #[trigger] ls[i] == layout_info_of(s.spec_workspaces().spec_workspaces()[i], s.active_ws(), s.spec_layout())
}

/// `os` tells of the outputs of `s`, sorted top to bottom, then left to right.
pub open spec fn outputs_listed(s: State, os: Seq<OutputInfo>) -> bool {
    let outs = s.spec_output_manager().spec_map().spec_outputs();
    &&& os.len() == outs.len()
    &&& forall|i: int| 0 <= i < outs.len() ==> output_info_matches(os[rank(outs, i) as int], #[trigger] outs[i])
}

/// What IPC tells of the window with the keyboard focus, under the identity
/// its data records.
pub open spec fn active_window_of(s: State) -> Option<WindowInfo> {
    match focused_window(s) {
        Some(id) => if has_key(s.spec_windows(), id) {
            Some(info_of(data_of(s.spec_windows(), id).id, data_of(s.spec_windows(), id)))
        } else {
            None
        },
        None => None,
    }
}

/// `b` is `a` with the opacity of window `id` set to `bits` and a redraw
/// due; an unknown `id` changes nothing.
pub open spec fn opacity_set(a: State, b: State, id: WindowId, bits: u32) -> bool {
    &&& !has_key(a.spec_windows(), id) ==> b == a
    &&& has_key(a.spec_windows(), id) ==> exists|m: State| #![trigger redraw_step(m, b)]
        m.wf() && entry_replaced(a, m, id, with_opacity(data_of(a.spec_windows(), id), bits)) && redraw_step(m, b)
}

/// `b` is `a` with `event` announced and nothing else changed.
pub open spec fn announced(a: State, b: State, event: IpcEvent) -> bool {
    &&& b.spec_effects() == a.spec_effects().push(Effect::Emit { event })
    &&& same_places(a, b)
    &&& same_windows(a, b)
    &&& same_focus(a, b)
    &&& same_redraw(a, b)
}

/// Handles one IPC command on the window-manager state.
pub fn handle_command(cmd: IpcCommand, state: &mut State) -> (r: IpcReply)
    requires
        old(state).wf(),
    ensures
        final(state).wf(),
        command_handled(*old(state), cmd, *final(state), r),
{
    match cmd {
        IpcCommand::FocusWindow { id } => {
            state.focus_window(id);
            IpcReply::Respond(IpcResponse::Success)
        },
        IpcCommand::MoveToWorkspace { window, workspace } => {
            state.move_window_to_workspace(window, workspace);
            IpcReply::Respond(IpcResponse::Success)
        },
        IpcCommand::SetLayout { workspace, mode } => {
            state.set_workspace_layout(workspace, mode);
            IpcReply::Respond(IpcResponse::Success)
        },
        IpcCommand::FloatWindow { id, floating } => {
            state.set_window_floating(id, floating);
            IpcReply::Respond(IpcResponse::Success)
        },
        IpcCommand::KillWindow { id } => {
            state.kill_window(id);
            IpcReply::Respond(IpcResponse::Success)
        },
        IpcCommand::GetWindows => IpcReply::Respond(IpcResponse::Windows { windows: state.window_infos() }),
        IpcCommand::GetWorkspaces => IpcReply::Respond(IpcResponse::Workspaces { workspaces: state.workspace_infos() }),
        IpcCommand::GetOutputs => IpcReply::Respond(IpcResponse::Outputs { outputs: state.output_infos() }),
        IpcCommand::GetLayouts => IpcReply::Respond(IpcResponse::Layouts { layouts: state.layout_infos() }),
        IpcCommand::GetState => {
            let windows = state.window_infos();
            let workspaces = state.workspace_infos();
            IpcReply::Respond(
                IpcResponse::State {
                    focused_window: state.focused_window_id(),
                    active_workspace: state.active_workspace_id(),
                    windows,
                    workspaces,
                },
            )
        },
        IpcCommand::ReloadConfig => IpcReply::ReloadConfig,
        IpcCommand::SwitchWorkspace { id } => {
            state.switch_workspace(id);
            IpcReply::Respond(IpcResponse::Success)
        },
        IpcCommand::NextWorkspace => {
            let active = state.active_workspace_id();
            let next = if active >= WORKSPACE_COUNT {
                1
            } else {
                active + 1
            };
            state.switch_workspace(next);
            IpcReply::Respond(IpcResponse::Success)
        },
        IpcCommand::PrevWorkspace => {
            let active = state.active_workspace_id();
            let prev = if active <= 1 {
                WORKSPACE_COUNT
            } else {
                active - 1
            };
            state.switch_workspace(prev);
            IpcReply::Respond(IpcResponse::Success)
        },
        IpcCommand::ToggleFullscreen { id } => {
            state.toggle_fullscreen(id);
            IpcReply::Respond(IpcResponse::Success)
        },
        IpcCommand::FocusDirection { dir } => {
            state.focus_direction(dir);
            IpcReply::Respond(IpcResponse::Success)
        },
        IpcCommand::Spawn { cmd } => IpcReply::Spawn { command: cmd, origin: SpawnOrigin::Ipc },
        IpcCommand::WallpaperSet { path, fit } => IpcReply::WallpaperImage { path, fit },
        IpcCommand::WallpaperColor { color } => IpcReply::WallpaperColor { color },
        IpcCommand::WallpaperSlideshow { dir, interval_secs } => IpcReply::WallpaperSlideshow { dir, interval_secs },
        IpcCommand::SetTheme { patch } => IpcReply::ApplyTheme { patch },
        IpcCommand::Osd { icon, value, text } => {
            let command = osd_command(icon, value, &text);
            IpcReply::Spawn { command, origin: SpawnOrigin::IpcOsd }
        },
        IpcCommand::GetTheme => IpcReply::Theme,
        IpcCommand::GetEnvironment => IpcReply::Environment,
        IpcCommand::GetActiveWindow => IpcReply::Respond(IpcResponse::ActiveWindow { window: state.active_window_info() }),
        IpcCommand::SwapWindow { a, b } => {
            state.swap_windows(a, b);
            IpcReply::Respond(IpcResponse::Success)
        },
        IpcCommand::SetOpacity { id, value_bits } => {
            state.set_window_opacity(id, value_bits);
            IpcReply::Respond(IpcResponse::Success)
        },
        IpcCommand::ResizeDelta { id, dw, dh } => {
            state.add_resize_delta(id, dw, dh);
            IpcReply::Respond(IpcResponse::Success)
        },
        IpcCommand::Lock => IpcReply::SpawnLockClient,
        IpcCommand::Notify { app_name, summary, body, icon, timeout } => {
            state.emit_ipc_event(IpcEvent::Notification { app_name, summary, body, icon, timeout });
            IpcReply::Respond(IpcResponse::Success)
        },
        IpcCommand::ShowClipboard => {
            state.emit_ipc_event(IpcEvent::Clipboard);
            IpcReply::Respond(IpcResponse::Success)
        },
    }
}

} // verus!
