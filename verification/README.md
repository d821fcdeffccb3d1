# vitrum

The window-management core of the Vitrum Wayland compositor, written in
Verus: every function in `src/` carries a contract that the verifier proves.

## Layout

- `src/` – the verified library.
  - `state.rs`, `window.rs` – the window manager: windows, stacking order, focus,
    workspaces per output, layout, and the effects it asks the compositor
    to carry out.
  - `workspace.rs`, `output_workspaces.rs`, `output.rs`, `output_id.rs` –
    workspaces, outputs and their arrangement.
  - `layout.rs`, `geometry.rs` – the dwindle and master-stack tilings.
  - `layer_shell.rs`, `session_lock.rs`, `render.rs`, `renderer.rs`, `commit.rs`,
    `damage.rs` – layer surfaces, the session lock, drawing order and
    damage tracking.
  - `ipc.rs`, `ipc_handler.rs`, `config.rs`, `keybind.rs`, `theme.rs` –
    IPC commands, key bindings and actions, theme patches.
  - `wallpaper.rs`, `autostart.rs`, `desktop_file.rs`, `launcher.rs`,
    `session.rs`, `ctl.rs` – wallpaper state, desktop entries, program
    launching, the session environment and the control client's decisions.
  - `capture.rs` – copying captured frames into shared-memory buffers.
  - `text.rs`, `digits.rs`, `sorting.rs` – string helpers.
- `tests/` – tests of the library.
- `app/` – the program around the library: command line, logging,
  processes, files and the floating-point parts of drawing.
