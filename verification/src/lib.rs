//! The window-management core of the Vitrum Wayland compositor: windows,
//! workspaces, outputs, layouts, layer surfaces, the session lock, IPC
//! commands and key bindings, each with a contract proved by Verus.

pub mod autostart;
pub mod capture;
pub mod commit;
pub mod config;
pub mod ctl;
pub mod damage;
pub mod desktop_file;
pub mod digits;
pub mod geometry;
pub mod ipc;
pub mod ipc_handler;
pub mod keybind;
pub mod launcher;
pub mod layer_shell;
pub mod layout;
pub mod output;
pub mod output_id;
pub mod output_workspaces;
pub mod render;
pub mod renderer;
pub mod session;
pub mod session_lock;
pub mod sorting;
pub mod state;
pub mod text;
pub mod theme;
pub mod wallpaper;
pub mod window;
pub mod workspace;
