use vstd::prelude::*;
use crate::layout::LayoutMode;
use crate::window::WindowId;

verus! {

/// What the IPC interface tells about a window.
#[derive(Debug)]
pub struct WindowInfo {
    pub id: WindowId,
    pub title: String,
    pub app_id: String,
    pub workspace: u32,
    pub floating: bool,
    pub fullscreen: bool,
    /// The opacity, as the bits of an `f32`.
    pub opacity_bits: u32,
    pub pinned: bool,
    pub urgent: bool,
}

/// What the IPC interface tells about a workspace.
#[derive(Debug)]
pub struct WorkspaceInfo {
    pub id: u32,
    pub name: String,
    pub window_count: usize,
    pub active: bool,
}

/// What the IPC interface tells about an output.
#[derive(Debug)]
pub struct OutputInfo {
    pub id: u64,
    pub name: String,
    pub size: (i32, i32),
    pub position: (i32, i32),
    /// The scale factor, as the bits of an `f64`.
    pub scale_bits: u64,
    pub enabled: bool,
    pub primary: bool,
    pub active_workspace: u32,
    /// The transform, named as the compositor's debug output names it.
    pub transform: String,
}

/// What the IPC interface tells about the layout of a workspace.
#[derive(Debug)]
pub struct WorkspaceLayoutInfo {
    pub workspace: u32,
    pub active: bool,
    pub mode: LayoutMode,
}

/// Events announced to IPC subscribers.
#[derive(Debug)]
pub enum IpcEvent {
    WindowOpened { window: WindowInfo },
    WindowClosed { id: WindowId },
    WindowFocused { id: WindowId },
    WorkspaceChanged { workspace: u32 },
    WindowMoved { id: WindowId, from_workspace: u32, to_workspace: u32 },
    WallpaperChanged,
    Notification {
        app_name: String,
        summary: String,
        body: String,
        icon: Option<String>,
        timeout: Option<u32>,
    },
    Clipboard,
}

/// The kinds of event a listener subscribes to.
#[derive(Debug, Clone, Copy, PartialEq, Eq, Structural)]
pub enum EventCategory {
    Workspace,
    Window,
    Wallpaper,
    Notification,
    Clipboard,
}

/// The kind an event is sent to listeners under: window events under
/// `Window`, the others under a kind of their own.
pub open spec fn event_category(e: IpcEvent) -> EventCategory {
    match e {
        IpcEvent::WorkspaceChanged { .. } => EventCategory::Workspace,
        IpcEvent::WindowOpened { .. } => EventCategory::Window,
        IpcEvent::WindowClosed { .. } => EventCategory::Window,
        IpcEvent::WindowFocused { .. } => EventCategory::Window,
        IpcEvent::WindowMoved { .. } => EventCategory::Window,
        IpcEvent::WallpaperChanged => EventCategory::Wallpaper,
        IpcEvent::Notification { .. } => EventCategory::Notification,
        IpcEvent::Clipboard => EventCategory::Clipboard,
    }
}

impl IpcEvent {
    /// The kind this event is sent to listeners under.
    pub fn category(&self) -> (c: EventCategory)
        ensures
            c == event_category(*self),
    {
        match self {
            IpcEvent::WorkspaceChanged { .. } => EventCategory::Workspace,
            IpcEvent::WindowOpened { .. } | IpcEvent::WindowClosed { .. } | IpcEvent::WindowFocused { .. }
            | IpcEvent::WindowMoved { .. } => EventCategory::Window,
            IpcEvent::WallpaperChanged => EventCategory::Wallpaper,
            IpcEvent::Notification { .. } => EventCategory::Notification,
            IpcEvent::Clipboard => EventCategory::Clipboard,
        }
    }
}

} // verus!
