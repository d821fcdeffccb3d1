use vstd::prelude::*;
use crate::damage::{damage_added, DamageTracker};
use crate::geometry::{Rect, Size};
use crate::ipc::{IpcEvent, OutputInfo, WindowInfo, WorkspaceInfo, WorkspaceLayoutInfo};
use crate::layout::{area_of, available_area, dwindle, ids_of, master_stack, tiled, Area, LayoutEngine, LayoutMode, LayoutWindow};
use crate::output_id::{OutputId, OutputIdCounter};
use crate::output::{lemma_count_before_bound, rank, transform_name, OutputChange, OutputManager, OutputProperty, OutputState};
use crate::output_workspaces::{fresh_set, same_but_active, OutputWorkspaces};
use crate::window::{fresh_window, WindowData, WindowFlags, WindowId};
use crate::workspace::{valid_workspace, Workspace, WorkspaceSet, WORKSPACE_COUNT};
use crate::geometry::{fits_i32, Point};
use crate::config::{first_rule, match_window_rules, RuleSettings, WindowRule};

verus! {

/// Work the window manager hands to the compositor around it, in order.
#[derive(Debug)]
pub enum Effect {
    /// Give the keyboard focus to this surface (none: to nothing), with this serial.
    SetKeyboardFocus { target: Option<u64>, serial: u32 },
    /// Announce an event to IPC subscribers.
    Emit { event: IpcEvent },
    /// Publish a foreign-toplevel handle for a new window.
    ForeignToplevelOpened { window: WindowId },
    /// Withdraw the foreign-toplevel handle of a window that went away.
    ForeignToplevelClosed { window: WindowId },
    /// Send the window's current title and app id to its foreign-toplevel handle.
    ForeignToplevelMetadata { window: WindowId },
    /// Ask the client of this surface to close its window: an xdg toplevel
    /// or an X11 window.
    CloseWindow { surface: u64, has_toplevel: bool },
}

/// The window with key `id` is among `ws`.
pub open spec fn has_key(ws: Seq<(WindowId, WindowData)>, id: WindowId) -> bool {
    exists|i: int| 0 <= i < ws.len() && (#[trigger] ws[i]).0 == id
}

/// Where the window with key `id` stands (meaningful when present).
pub open spec fn key_index(ws: Seq<(WindowId, WindowData)>, id: WindowId) -> int {
    choose|i: int| 0 <= i < ws.len() && (#[trigger] ws[i]).0 == id
}

/// The data of the window with key `id` (meaningful when present).
pub open spec fn data_of(ws: Seq<(WindowId, WindowData)>, id: WindowId) -> WindowData {
    ws[key_index(ws, id)].1
}

/// No key occurs twice.
pub open spec fn keys_distinct(ws: Seq<(WindowId, WindowData)>) -> bool {
    forall|i: int, j: int| 0 <= i < j < ws.len() ==> (#[trigger] ws[i]).0 != (#[trigger] ws[j]).0
}

/// The window a surface belongs to: the last one recorded for it.
pub open spec fn surface_lookup(pairs: Seq<(u64, WindowId)>, s: u64) -> Option<WindowId>
    decreases pairs.len(),
{
    if pairs.len() == 0 {
        None
    } else if pairs.last().0 == s {
        Some(pairs.last().1)
    } else {
        surface_lookup(pairs.drop_last(), s)
    }
}

/// The workspace shown on the focused output (the primary one when none
/// has the focus); workspace 1 when there is no output.
pub open spec fn shown_workspace(o: OutputWorkspaces) -> u32 {
    let target = if o.spec_focused() is Some {
        o.spec_focused()
    } else {
        o.spec_primary()
    };
    match target {
        Some(id) => if o.has(id) {
            o.set_of(id).spec_active()
        } else {
            1
        },
        None => 1,
    }
}

/// The serial after `s`: it counts up, wrapping, and skips zero.
pub open spec fn next_serial(s: u32) -> u32 {
    let w = if s == u32::MAX {
        0u32
    } else {
        (s + 1) as u32
    };
    if w < 1 {
        1
    } else {
        w
    }
}

/// The workspaces, outputs, layout settings and sizes are the same.
pub open spec fn same_places(a: State, b: State) -> bool {
    &&& a.spec_workspaces() == b.spec_workspaces()
    &&& a.spec_outputs() == b.spec_outputs()
    &&& a.spec_layout() == b.spec_layout()
    &&& a.spec_output_size() == b.spec_output_size()
    &&& a.spec_tiling_area() == b.spec_tiling_area()
    &&& a.spec_master_extent() == b.spec_master_extent()
    &&& a.spec_floating_geometry() == b.spec_floating_geometry()
    &&& a.spec_output_manager() == b.spec_output_manager()
    &&& a.spec_output_id() == b.spec_output_id()
    &&& a.spec_next_id() == b.spec_next_id()
}

/// The windows, the surface index and the stacking order are the same.
pub open spec fn same_windows(a: State, b: State) -> bool {
    &&& a.spec_windows() == b.spec_windows()
    &&& a.spec_surfaces() == b.spec_surfaces()
    &&& a.spec_order() == b.spec_order()
}

/// The keyboard focus and its serial are the same.
pub open spec fn same_focus(a: State, b: State) -> bool {
    &&& a.spec_focus() == b.spec_focus()
    &&& a.spec_serial() == b.spec_serial()
}

/// What `mark_redraw` does: the whole output is damaged and a redraw is due.
pub open spec fn redrawn(a: State, b: State) -> bool {
    &&& b.spec_needs_redraw()
    &&& b.spec_damage().spec_full()
    &&& b.spec_damage().spec_damage().len() == 0
    &&& b.spec_damage().spec_output_size() == a.spec_damage().spec_output_size()
    &&& b.spec_damage().spec_frame_count() == a.spec_damage().spec_frame_count()
}

/// The redraw flag and the damage are the same.
pub open spec fn same_redraw(a: State, b: State) -> bool {
    &&& a.spec_needs_redraw() == b.spec_needs_redraw()
    &&& a.spec_damage() == b.spec_damage()
}

/// Everything but the window table is the same.
pub open spec fn all_but_windows(a: State, b: State) -> bool {
    &&& same_places(a, b)
    &&& a.spec_surfaces() == b.spec_surfaces()
    &&& a.spec_order() == b.spec_order()
    &&& same_focus(a, b)
    &&& same_redraw(a, b)
    &&& a.spec_effects() == b.spec_effects()
}

/// `b` is `a` after `apply_layout`: each window has its laid-out geometry,
/// a redraw is due, and nothing else changed.
pub open spec fn laid_out_state(a: State, b: State) -> bool {
    &&& b.spec_windows().len() == a.spec_windows().len()
    &&& forall|i: int|
        0 <= i < a.spec_windows().len() ==> #[trigger] b.spec_windows()[i] == (
            a.spec_windows()[i].0,
            with_geometry(a.spec_windows()[i].1, a.laid_out(a.spec_windows()[i].0, a.spec_windows()[i].1)),
        )
    &&& b.spec_surfaces() == a.spec_surfaces()
    &&& b.spec_order() == a.spec_order()
    &&& same_places(a, b)
    &&& same_focus(a, b)
    &&& redrawn(a, b)
    &&& b.spec_effects() == a.spec_effects()
}

/// The table after a map insertion of `(id, d)`: the entry replaced in place,
/// or appended.
pub open spec fn inserted(ws: Seq<(WindowId, WindowData)>, id: WindowId, d: WindowData) -> Seq<(WindowId, WindowData)> {
    if has_key(ws, id) {
        ws.update(key_index(ws, id), (id, d))
    } else {
        ws.push((id, d))
    }
}

/// What IPC tells of window `id` with data `d`.
pub open spec fn info_of(id: WindowId, d: WindowData) -> WindowInfo {
    WindowInfo {
        id,
        title: d.title,
        app_id: d.app_id,
        workspace: d.workspace,
        floating: d.flags.floating,
        fullscreen: d.flags.fullscreen,
        opacity_bits: d.opacity_bits,
        pinned: d.flags.pinned,
        urgent: d.flags.urgent,
    }
}

/// The counter after handing out one identity: it counts up and wraps.
pub open spec fn bumped(n: u64) -> u64 {
    if n == u64::MAX {
        0
    } else {
        (n + 1) as u64
    }
}

/// `m` is `a` with a window added under key `id` for `surface` (with an xdg
/// toplevel or not), placed on the shown workspace, before it is laid out:
/// its data (identity one past the key, from the window counter), the
/// surface index, the top of the stacking order, the keyboard focus, the
/// shown workspace of the set, and the effects that announce it.
pub open spec fn added_window(a: State, m: State, id: WindowId, surface: u64, toplevel: bool, geometry: Rect) -> bool {
    let d = data_of(m.spec_windows(), id);
    let ws = a.layout_workspace();
    let info_effects = if toplevel {
        seq![Effect::Emit { event: IpcEvent::WindowOpened { window: info_of(id, d) } }]
    } else {
        Seq::empty()
    };
    &&& id == WindowId(a.spec_next_id())
    &&& has_key(m.spec_windows(), id)
    &&& m.spec_windows() == inserted(a.spec_windows(), id, d)
    &&& d.id == WindowId(bumped(a.spec_next_id()))
    &&& d.surface == surface
    &&& d.has_toplevel == toplevel
    &&& d.flags == WindowFlags::spec_cleared()
    &&& d.geometry == geometry
    &&& d.workspace == a.active_ws()
    &&& d.title@.len() == 0
    &&& d.app_id@.len() == 0
    &&& d.opacity_bits == crate::window::OPAQUE_BITS
    &&& d.resize_delta == (0i32, 0i32)
    &&& d.alive
    &&& m.spec_surfaces() == a.spec_surfaces().push((surface, id))
    &&& m.spec_order() == a.spec_order().push(id)
    &&& m.spec_focus() == Some(surface)
    &&& m.spec_serial() == next_serial(a.spec_serial())
    &&& m.spec_workspaces().spec_active() == a.spec_workspaces().spec_active()
    &&& m.spec_workspaces().spec_output() == a.spec_workspaces().spec_output()
    &&& m.spec_workspaces().spec_workspaces() == a.spec_workspaces().spec_workspaces().update(
        a.spec_workspaces().spec_active() - 1,
        m.layout_workspace(),
    )
    &&& m.layout_workspace().id == ws.id
    &&& m.layout_workspace().name@ == ws.name@
    &&& m.layout_workspace().focused_window == ws.focused_window
    &&& m.layout_workspace().windows@ == (if ws.windows@.contains(id) {
        ws.windows@
    } else {
        ws.windows@.push(id)
    })
    &&& m.spec_outputs() == a.spec_outputs()
    &&& m.spec_layout() == a.spec_layout()
    &&& m.spec_output_size() == a.spec_output_size()
    &&& m.spec_tiling_area() == a.spec_tiling_area()
    &&& m.spec_master_extent() == a.spec_master_extent()
    &&& m.spec_floating_geometry() == a.spec_floating_geometry()
    &&& m.spec_output_manager() == a.spec_output_manager()
    &&& m.spec_output_id() == a.spec_output_id()
    &&& m.spec_next_id() == bumped(bumped(a.spec_next_id()))
    &&& same_redraw(a, m)
    &&& m.spec_effects() == a.spec_effects() + seq![
        Effect::SetKeyboardFocus { target: Some(surface), serial: a.spec_serial() },
        Effect::ForeignToplevelOpened { window: id },
    ] + info_effects
}

/// `order` without the window `id`, the rest in order.
pub open spec fn without_id(order: Seq<WindowId>, id: WindowId) -> Seq<WindowId>
    decreases order.len(),
{
    if order.len() == 0 {
        order
    } else {
        let before = without_id(order.drop_last(), id);
        if order.last() == id {
            before
        } else {
            before.push(order.last())
        }
    }
}

/// The surface index without the entries of surface `s`.
pub open spec fn without_surface(pairs: Seq<(u64, WindowId)>, s: u64) -> Seq<(u64, WindowId)>
    decreases pairs.len(),
{
    if pairs.len() == 0 {
        pairs
    } else {
        let before = without_surface(pairs.drop_last(), s);
        if pairs.last().0 == s {
            before
        } else {
            before.push(pairs.last())
        }
    }
}

/// The window highest in the stacking order `order` that is in the table.
pub open spec fn top_window(order: Seq<WindowId>, ws: Seq<(WindowId, WindowData)>) -> Option<WindowId>
    decreases order.len(),
{
    if order.len() == 0 {
        None
    } else if has_key(ws, order.last()) {
        Some(order.last())
    } else {
        top_window(order.drop_last(), ws)
    }
}

/// The focused surface belongs to a window on the shown workspace.
pub open spec fn focus_on_shown(s: State) -> bool {
    match s.spec_focus() {
        Some(f) => match surface_lookup(s.spec_surfaces(), f) {
            Some(id) => has_key(s.spec_windows(), id) && data_of(s.spec_windows(), id).workspace == s.active_ws(),
            None => false,
        },
        None => false,
    }
}

/// Where the focus goes when it is not on the shown workspace: to the
/// surface of the window highest in the stacking order when that window is
/// on the shown workspace, else to nothing.
pub open spec fn refocus_target(s: State) -> Option<u64> {
    match top_window(s.spec_order(), s.spec_windows()) {
        Some(id) => if data_of(s.spec_windows(), id).workspace == s.active_ws() {
            Some(data_of(s.spec_windows(), id).surface)
        } else {
            None
        },
        None => None,
    }
}

/// `b` is `a` with the keyboard focus moved to `target` (see
/// `set_keyboard_focus`).
pub open spec fn focus_moved(a: State, b: State, target: Option<u64>) -> bool {
    &&& b.spec_focus() == target
    &&& b.spec_serial() == next_serial(a.spec_serial())
    &&& b.spec_effects() == a.spec_effects().push(Effect::SetKeyboardFocus { target, serial: a.spec_serial() })
    &&& same_places(a, b)
    &&& same_windows(a, b)
    &&& same_redraw(a, b)
}

/// `b` is `a` after the focus was brought back to the shown workspace.
pub open spec fn refocused(a: State, b: State) -> bool {
    if focus_on_shown(a) {
        b == a
    } else {
        focus_moved(a, b, refocus_target(a))
    }
}

/// `w2` is `w` after `Workspace::remove_window(id)`.
pub open spec fn workspace_without(w: Workspace, w2: Workspace, id: WindowId) -> bool {
    &&& w2.wf()
    &&& w2.id == w.id
    &&& w2.name@ == w.name@
    &&& (w.windows@.contains(id) ==> exists|p: int| 0 <= p < w.windows@.len() && w.windows@[p] == id
        && w2.windows@ == w.windows@.remove(p))
    &&& (!w.windows@.contains(id) ==> w2.windows@ == w.windows@)
    &&& w2.focused_window == (if w.focused_window == Some(id) {
        crate::workspace::first_other(w.windows@, id)
    } else {
        w.focused_window
    })
}

/// `m` is `a` with the present window `id` taken out, before the focus and
/// the layout follow: its entry, its surface's index entries and its place
/// in the stacking order are gone, it leaves its workspace, the focus is
/// dropped when it was on its surface, and its removal is announced.
pub open spec fn removed_window(a: State, m: State, id: WindowId) -> bool {
    let d = data_of(a.spec_windows(), id);
    &&& m.spec_windows() == a.spec_windows().remove(key_index(a.spec_windows(), id))
    &&& m.spec_surfaces() == without_surface(a.spec_surfaces(), d.surface)
    &&& m.spec_order() == without_id(a.spec_order(), id)
    &&& (valid_workspace(d.workspace) ==> {
        &&& m.spec_workspaces().spec_workspaces() == a.spec_workspaces().spec_workspaces().update(
            d.workspace - 1,
            m.spec_workspaces().workspace(d.workspace),
        )
        &&& workspace_without(a.spec_workspaces().workspace(d.workspace), m.spec_workspaces().workspace(d.workspace), id)
    })
    &&& (!valid_workspace(d.workspace) ==> m.spec_workspaces().spec_workspaces() == a.spec_workspaces().spec_workspaces())
    &&& m.spec_workspaces().spec_active() == a.spec_workspaces().spec_active()
    &&& m.spec_workspaces().spec_output() == a.spec_workspaces().spec_output()
    &&& m.spec_focus() == (if a.spec_focus() == Some(d.surface) {
        None
    } else {
        a.spec_focus()
    })
    &&& m.spec_serial() == a.spec_serial()
    &&& m.spec_outputs() == a.spec_outputs()
    &&& m.spec_layout() == a.spec_layout()
    &&& m.spec_output_size() == a.spec_output_size()
    &&& m.spec_tiling_area() == a.spec_tiling_area()
    &&& m.spec_master_extent() == a.spec_master_extent()
    &&& m.spec_floating_geometry() == a.spec_floating_geometry()
    &&& m.spec_output_manager() == a.spec_output_manager()
    &&& m.spec_output_id() == a.spec_output_id()
    &&& m.spec_next_id() == a.spec_next_id()
    &&& same_redraw(a, m)
    &&& m.spec_effects() == a.spec_effects() + seq![
        Effect::ForeignToplevelClosed { window: id },
        Effect::Emit { event: IpcEvent::WindowClosed { id } },
    ]
}

/// The output whose shown workspace counts: the focused one, else the
/// primary one.
pub open spec fn target_output(o: OutputWorkspaces) -> Option<OutputId> {
    if o.spec_focused() is Some {
        o.spec_focused()
    } else {
        o.spec_primary()
    }
}

/// `o2` is `o` with workspace `id` shown on output `target` when that output
/// is known.
pub open spec fn outputs_switched(o: OutputWorkspaces, o2: OutputWorkspaces, target: Option<OutputId>, id: u32) -> bool {
    &&& o2.spec_primary() == o.spec_primary()
    &&& o2.spec_focused() == o.spec_focused()
    &&& match target {
        Some(oid) => if o.has(oid) {
            &&& o2.spec_entries() == o.spec_entries().update(o.index_of(oid), (oid, o2.set_of(oid)))
            &&& o2.index_of(oid) == o.index_of(oid)
            &&& same_but_active(o.set_of(oid), o2.set_of(oid), id)
        } else {
            o2.spec_entries() == o.spec_entries()
        },
        None => o2.spec_entries() == o.spec_entries(),
    }
}

/// `m` is `a` with workspace `id` (valid) shown by the set and by the
/// focused (else primary) output.
pub open spec fn switched_to(a: State, m: State, id: u32) -> bool {
    &&& same_but_active(a.spec_workspaces(), m.spec_workspaces(), id)
    &&& outputs_switched(a.spec_outputs(), m.spec_outputs(), target_output(a.spec_outputs()), id)
    &&& m.spec_layout() == a.spec_layout()
    &&& m.spec_output_size() == a.spec_output_size()
    &&& m.spec_tiling_area() == a.spec_tiling_area()
    &&& m.spec_master_extent() == a.spec_master_extent()
    &&& m.spec_floating_geometry() == a.spec_floating_geometry()
    &&& m.spec_output_manager() == a.spec_output_manager()
    &&& m.spec_output_id() == a.spec_output_id()
    &&& m.spec_next_id() == a.spec_next_id()
    &&& same_windows(a, m)
    &&& same_focus(a, m)
    &&& same_redraw(a, m)
    &&& m.spec_effects() == a.spec_effects()
}

/// `b` is `a` with `e` announced.
pub open spec fn emitted(a: State, b: State, e: IpcEvent) -> bool {
    &&& b.spec_effects() == a.spec_effects().push(Effect::Emit { event: e })
    &&& same_places(a, b)
    &&& same_windows(a, b)
    &&& same_focus(a, b)
    &&& same_redraw(a, b)
}

/// `w2` is `w` after `Workspace::add_window(id)`.
pub open spec fn workspace_with(w: Workspace, w2: Workspace, id: WindowId) -> bool {
    &&& w2.wf()
    &&& w2.id == w.id
    &&& w2.name@ == w.name@
    &&& w2.focused_window == w.focused_window
    &&& w2.windows@ == (if w.windows@.contains(id) {
        w.windows@
    } else {
        w.windows@.push(id)
    })
}

/// `d` on workspace `ws`.
pub open spec fn with_workspace(d: WindowData, ws: u32) -> WindowData {
    WindowData {
        id: d.id,
        surface: d.surface,
        has_toplevel: d.has_toplevel,
        flags: d.flags,
        geometry: d.geometry,
        workspace: ws,
        title: d.title,
        app_id: d.app_id,
        opacity_bits: d.opacity_bits,
        resize_delta: d.resize_delta,
        alive: d.alive,
    }
}

/// The set `s2` is `s` with window `w` taken off workspace `from` and put
/// on workspace `to` (another one), each step where the workspace exists.
pub open spec fn set_moved(s: WorkspaceSet, s2: WorkspaceSet, w: WindowId, from: u32, to: u32) -> bool {
    &&& s2.wf()
    &&& s2.spec_active() == s.spec_active()
    &&& s2.spec_output() == s.spec_output()
    &&& forall|k: u32| valid_workspace(k) && k != from && k != to ==> #[trigger] s2.workspace(k) == s.workspace(k)
    &&& (valid_workspace(from) ==> workspace_without(s.workspace(from), s2.workspace(from), w))
    &&& (valid_workspace(to) ==> workspace_with(s.workspace(to), s2.workspace(to), w))
}

/// `m` is `a` with the present window `w` moved from its workspace to the
/// valid workspace `to`, before the focus and layout follow.
pub open spec fn moved_window(a: State, m: State, w: WindowId, to: u32) -> bool {
    let k = key_index(a.spec_windows(), w);
    let d = a.spec_windows()[k].1;
    &&& m.spec_windows() == a.spec_windows().update(k, (w, with_workspace(d, to)))
    &&& set_moved(a.spec_workspaces(), m.spec_workspaces(), w, d.workspace, to)
    &&& m.spec_surfaces() == a.spec_surfaces()
    &&& m.spec_order() == a.spec_order()
    &&& m.spec_outputs() == a.spec_outputs()
    &&& m.spec_layout() == a.spec_layout()
    &&& m.spec_output_size() == a.spec_output_size()
    &&& m.spec_tiling_area() == a.spec_tiling_area()
    &&& m.spec_master_extent() == a.spec_master_extent()
    &&& m.spec_floating_geometry() == a.spec_floating_geometry()
    &&& m.spec_output_manager() == a.spec_output_manager()
    &&& m.spec_output_id() == a.spec_output_id()
    &&& m.spec_next_id() == a.spec_next_id()
    &&& same_focus(a, m)
    &&& same_redraw(a, m)
    &&& m.spec_effects() == a.spec_effects()
}

/// `d` with flags `f`.
pub open spec fn with_flags(d: WindowData, f: WindowFlags) -> WindowData {
    WindowData {
        id: d.id,
        surface: d.surface,
        has_toplevel: d.has_toplevel,
        flags: f,
        geometry: d.geometry,
        workspace: d.workspace,
        title: d.title,
        app_id: d.app_id,
        opacity_bits: d.opacity_bits,
        resize_delta: d.resize_delta,
        alive: d.alive,
    }
}

/// `b` is `a` with only the entry of the present window `id` replaced by `d`.
pub open spec fn entry_replaced(a: State, b: State, id: WindowId, d: WindowData) -> bool {
    &&& b.spec_windows() == a.spec_windows().update(key_index(a.spec_windows(), id), (id, d))
    &&& b.spec_surfaces() == a.spec_surfaces()
    &&& b.spec_order() == a.spec_order()
    &&& same_places(a, b)
    &&& same_focus(a, b)
    &&& same_redraw(a, b)
    &&& b.spec_effects() == a.spec_effects()
}

/// The floating flag of `d` turned over; a window that starts floating
/// takes the default floating geometry `g`.
pub open spec fn floating_toggled(d: WindowData, g: Rect) -> WindowData {
    let f = WindowFlags { floating: !d.flags.floating, ..d.flags };
    if f.floating {
        with_geometry(with_flags(d, f), g)
    } else {
        with_flags(d, f)
    }
}

/// The fullscreen flag of `d` turned over; a window that becomes fullscreen
/// covers the output of size `size`.
pub open spec fn fullscreen_toggled(d: WindowData, size: Size) -> WindowData {
    let f = WindowFlags { fullscreen: !d.flags.fullscreen, ..d.flags };
    if f.fullscreen {
        with_geometry(with_flags(d, f), Rect::spec_from_size(size.w, size.h))
    } else {
        with_flags(d, f)
    }
}

/// `i` is where `id` first occurs in `order`.
pub open spec fn first_at(order: Seq<WindowId>, id: WindowId, i: int) -> bool {
    &&& 0 <= i < order.len()
    &&& order[i] == id
    &&& forall|j: int| 0 <= j < i ==> order[j] != id
}

/// `order` with the first occurrences of `a` and `b` exchanged, when both
/// occur.
pub open spec fn order_swapped(order: Seq<WindowId>, a: WindowId, b: WindowId) -> Seq<WindowId> {
    if (exists|i: int| first_at(order, a, i)) && (exists|j: int| first_at(order, b, j)) {
        let i = choose|i: int| first_at(order, a, i);
        let j = choose|j: int| first_at(order, b, j);
        order.update(i, b).update(j, a)
    } else {
        order
    }
}

/// `b` is `a` after `focus_window(id)` for a present window `id`: it is on
/// top of the stacking order with the keyboard focus, announced, and a
/// redraw is due.
pub open spec fn window_focused(a: State, b: State, id: WindowId) -> bool {
    let surface = data_of(a.spec_windows(), id).surface;
    &&& b.spec_windows() == a.spec_windows()
    &&& b.spec_surfaces() == a.spec_surfaces()
    &&& b.spec_order() == without_id(a.spec_order(), id).push(id)
    &&& b.spec_focus() == Some(surface)
    &&& b.spec_serial() == next_serial(a.spec_serial())
    &&& b.spec_effects() == a.spec_effects() + seq![
        Effect::SetKeyboardFocus { target: Some(surface), serial: a.spec_serial() },
        Effect::Emit { event: IpcEvent::WindowFocused { id } },
    ]
    &&& same_places(a, b)
    &&& redrawn(a, b)
}

/// A direction to move the focus in.
#[derive(Debug, Clone, Copy, PartialEq, Eq, Structural)]
pub enum Direction {
    Left,
    Right,
    Up,
    Down,
}

/// The centre of a rectangle, halves rounded toward zero.
pub open spec fn center(r: Rect) -> (int, int) {
    (r.loc.x + crate::geometry::tdiv(r.size.w as int, 2), r.loc.y + crate::geometry::tdiv(r.size.h as int, 2))
}

pub open spec fn abs(x: int) -> int {
    if x < 0 {
        -x
    } else {
        x
    }
}

/// An offset `(dx, dy)` points in `dir` when it goes that way at least as far
/// as it goes across.
pub open spec fn points_in(dir: Direction, dx: int, dy: int) -> bool {
    match dir {
        Direction::Left => dx < 0 && abs(dy) <= abs(dx),
        Direction::Right => dx > 0 && abs(dy) <= abs(dx),
        Direction::Up => dy < 0 && abs(dx) <= abs(dy),
        Direction::Down => dy > 0 && abs(dx) <= abs(dy),
    }
}

/// Window `id` with data `d` is a candidate to receive the focus moving in
/// `dir` from a window with centre `from`: it is not the focused window, it
/// is alive and on workspace `active`, not fullscreen, and lies in `dir`.
pub open spec fn focus_candidate(
    id: WindowId,
    d: WindowData,
    focused: Option<WindowId>,
    active: u32,
    dir: Direction,
    from: (int, int),
) -> bool {
    let c = center(d.geometry);
    &&& Some(id) != focused
    &&& d.workspace == active
    &&& d.alive
    &&& !d.flags.fullscreen
    &&& points_in(dir, c.0 - from.0, c.1 - from.1)
}

/// The squared distance between two points.
pub open spec fn dist2(a: (int, int), b: (int, int)) -> int {
    (a.0 - b.0) * (a.0 - b.0) + (a.1 - b.1) * (a.1 - b.1)
}

/// The closest candidate among the first `n` windows of `ws`, with its
/// squared distance; the earlier one wins a tie.
pub open spec fn closest_candidate(
    ws: Seq<(WindowId, WindowData)>,
    n: int,
    focused: Option<WindowId>,
    active: u32,
    dir: Direction,
    from: (int, int),
) -> Option<(WindowId, int)>
    decreases n,
{
    if n <= 0 {
        None
    } else {
        let best = closest_candidate(ws, n - 1, focused, active, dir, from);
        let (id, d) = ws[n - 1];
        if focus_candidate(id, d, focused, active, dir, from) {
            let dist = dist2(center(d.geometry), from);
            match best {
                Some((b, bd)) => if dist < bd {
                    Some((id, dist))
                } else {
                    best
                },
                None => Some((id, dist)),
            }
        } else {
            best
        }
    }
}

/// Among the first `n` windows of `ws`, the one `closest_candidate` picks is
/// a candidate, at the distance it reports, no farther than any other
/// candidate; and there is none exactly when no window is a candidate.
pub proof fn lemma_closest_candidate_nearest(
    ws: Seq<(WindowId, WindowData)>,
    n: int,
    focused: Option<WindowId>,
    active: u32,
    dir: Direction,
    from: (int, int),
)
    requires
        0 <= n <= ws.len(),
    ensures
        match closest_candidate(ws, n, focused, active, dir, from) {
            Some((id, d)) => {
                &&& exists|i: int|
                    0 <= i < n && ws[i].0 == id && focus_candidate(ws[i].0, ws[i].1, focused, active, dir, from) && d
                        == dist2(center(ws[i].1.geometry), from)
                &&& forall|j: int|
                    0 <= j < n && #[trigger] focus_candidate(ws[j].0, ws[j].1, focused, active, dir, from) ==> d <= dist2(
                        center(ws[j].1.geometry),
                        from,
                    )
            },
            None => forall|j: int| 0 <= j < n ==> !#[trigger] focus_candidate(ws[j].0, ws[j].1, focused, active, dir, from),
        },
    decreases n,
{
    if n > 0 {
        lemma_closest_candidate_nearest(ws, n - 1, focused, active, dir, from);
        let best = closest_candidate(ws, n - 1, focused, active, dir, from);
        let (id, d) = ws[n - 1];
        if focus_candidate(id, d, focused, active, dir, from) {
            let dist = dist2(center(d.geometry), from);
            match best {
                Some((b, bd)) => {
                    let i0 = choose|i: int|
                        0 <= i < n - 1 && ws[i].0 == b && focus_candidate(ws[i].0, ws[i].1, focused, active, dir, from) && bd
                            == dist2(center(ws[i].1.geometry), from);
                    if dist < bd {
                        assert(ws[n - 1].0 == id);
                    } else {
                        assert(ws[i0].0 == b);
                    }
                },
                None => {
                    assert(ws[n - 1].0 == id);
                },
            }
        } else {
            match best {
                Some((b, bd)) => {
                    let i0 = choose|i: int|
                        0 <= i < n - 1 && ws[i].0 == b && focus_candidate(ws[i].0, ws[i].1, focused, active, dir, from) && bd
                            == dist2(center(ws[i].1.geometry), from);
                    assert(ws[i0].0 == b);
                },
                None => {},
            }
        }
    }
}

/// Law: moving the focus in a direction from a focused window goes to a
/// window that lies that way (alive, on the shown workspace, not fullscreen,
/// not the focused one) and whose centre is no farther from the focused
/// window's centre than that of any other such window; it stays put only
/// when there is no such window.
pub proof fn lemma_focus_direction_nearest(s: State, dir: Direction)
    requires
        focused_window(s) is Some,
        has_key(s.spec_windows(), focused_window(s).unwrap()),
    ensures
        ({
            let ws = s.spec_windows();
            let f = focused_window(s);
            let from = center(data_of(ws, f.unwrap()).geometry);
            match focus_direction_target(s, dir) {
                Some(id) => {
                    &&& exists|i: int|
                        0 <= i < ws.len() && ws[i].0 == id && focus_candidate(ws[i].0, ws[i].1, f, s.active_ws(), dir, from)
                            && forall|j: int|
                            0 <= j < ws.len() && #[trigger] focus_candidate(ws[j].0, ws[j].1, f, s.active_ws(), dir, from)
                                ==> dist2(center(ws[i].1.geometry), from) <= dist2(center(ws[j].1.geometry), from)
                },
                None => forall|j: int|
                    0 <= j < ws.len() ==> !#[trigger] focus_candidate(ws[j].0, ws[j].1, f, s.active_ws(), dir, from),
            }
        }),
{
    let ws = s.spec_windows();
    let f = focused_window(s);
    let from = center(data_of(ws, f.unwrap()).geometry);
    lemma_closest_candidate_nearest(ws, ws.len() as int, f, s.active_ws(), dir, from);
}

/// The first window in `order` among its first `n` that exists, is alive
/// and is on workspace `active`.
pub open spec fn first_on(order: Seq<WindowId>, ws: Seq<(WindowId, WindowData)>, active: u32, n: int) -> Option<WindowId>
    decreases n,
{
    if n <= 0 {
        None
    } else {
        match first_on(order, ws, active, n - 1) {
            Some(x) => Some(x),
            None => {
                let id = order[n - 1];
                if has_key(ws, id) && data_of(ws, id).workspace == active && data_of(ws, id).alive {
                    Some(id)
                } else {
                    None
                }
            },
        }
    }
}

/// The window whose surface has the keyboard focus.
pub open spec fn focused_window(s: State) -> Option<WindowId> {
    match s.spec_focus() {
        Some(f) => surface_lookup(s.spec_surfaces(), f),
        None => None,
    }
}

/// Where moving the focus in `dir` takes it: from the focused window to the
/// closest candidate; without a focused window, to the first live window of
/// the shown workspace in stacking order.
pub open spec fn focus_direction_target(s: State, dir: Direction) -> Option<WindowId> {
    let f = focused_window(s);
    if f is Some && has_key(s.spec_windows(), f.unwrap()) {
        let from = center(data_of(s.spec_windows(), f.unwrap()).geometry);
        match closest_candidate(s.spec_windows(), s.spec_windows().len() as int, f, s.active_ws(), dir, from) {
            Some((id, _)) => Some(id),
            None => None,
        }
    } else {
        first_on(s.spec_order(), s.spec_windows(), s.active_ws(), s.spec_order().len() as int)
    }
}

/// What is shown of the windows of `order` among its first `n`: those that
/// exist and are alive, pinned or on workspace `active`, as surface, corner
/// and whether they float, bottom to top.
pub open spec fn visible_in(order: Seq<WindowId>, ws: Seq<(WindowId, WindowData)>, active: u32, n: int) -> Seq<(u64, Point, bool)>
    decreases n,
{
    if n <= 0 {
        Seq::empty()
    } else {
        let before = visible_in(order, ws, active, n - 1);
        let id = order[n - 1];
        let d = data_of(ws, id);
        if has_key(ws, id) && d.alive && (d.flags.pinned || d.workspace == active) {
            before.push((d.surface, d.geometry.loc, d.flags.floating))
        } else {
            before
        }
    }
}

/// The surfaces of `v` that float (or not, for `floating == false`), with
/// their corners, in order.
pub open spec fn surfaces_floating(v: Seq<(u64, Point, bool)>, floating: bool) -> Seq<(u64, Point)>
    decreases v.len(),
{
    if v.len() == 0 {
        Seq::empty()
    } else {
        let before = surfaces_floating(v.drop_last(), floating);
        if v.last().2 == floating {
            before.push((v.last().0, v.last().1))
        } else {
            before
        }
    }
}

/// `b` is `a` after a window with key `id` was added for `surface` and the
/// layout redone (see `add_window`).
pub open spec fn window_added(a: State, b: State, id: WindowId, surface: u64, toplevel: bool, geometry: Rect) -> bool {
    &&& id == WindowId(a.spec_next_id())
    &&& exists|mid: State| #![trigger laid_out_state(mid, b)]
        mid.wf() && added_window(a, mid, id, surface, toplevel, geometry) && laid_out_state(mid, b)
}

/// Moving window `w` to workspace `ws` does something: the workspace is
/// valid and the window exists elsewhere.
pub open spec fn moves_window(a: State, w: WindowId, ws: u32) -> bool {
    valid_workspace(ws) && has_key(a.spec_windows(), w) && data_of(a.spec_windows(), w).workspace != ws
}

/// `b` is `a` after `move_window_to_workspace(w, ws)`.
pub open spec fn workspace_move_done(a: State, b: State, w: WindowId, ws: u32) -> bool {
    &&& !moves_window(a, w, ws) ==> b == a
    &&& moves_window(a, w, ws) ==> exists|m1: State, m2: State, m3: State|
        #![trigger refocused(m1, m2), laid_out_state(m3, b)]
        m1.wf() && m2.wf() && m3.wf() && moved_window(a, m1, w, ws) && refocused(m1, m2) && emitted(
            m2,
            m3,
            IpcEvent::WindowMoved { id: w, from_workspace: data_of(a.spec_windows(), w).workspace, to_workspace: ws },
        ) && laid_out_state(m3, b)
}

/// The keys of the windows of `ws` that are not alive, in table order.
pub open spec fn dead_keys(ws: Seq<(WindowId, WindowData)>) -> Seq<WindowId>
    decreases ws.len(),
{
    if ws.len() == 0 {
        Seq::empty()
    } else {
        let before = dead_keys(ws.drop_last());
        if !ws.last().1.alive {
            before.push(ws.last().0)
        } else {
            before
        }
    }
}

/// `b` is `a` after `remove_window(id)`.
pub open spec fn window_removed(a: State, b: State, id: WindowId) -> bool {
    &&& !has_key(a.spec_windows(), id) ==> b == a
    &&& has_key(a.spec_windows(), id) ==> exists|m1: State, m2: State| #![trigger refocused(m1, m2)]
        m1.wf() && m2.wf() && removed_window(a, m1, id) && refocused(m1, m2) && laid_out_state(m2, b)
}

/// `d` with title `t` and app id `i`.
pub open spec fn with_names(d: WindowData, t: String, i: String) -> WindowData {
    WindowData {
        id: d.id,
        surface: d.surface,
        has_toplevel: d.has_toplevel,
        flags: d.flags,
        geometry: d.geometry,
        workspace: d.workspace,
        title: t,
        app_id: i,
        opacity_bits: d.opacity_bits,
        resize_delta: d.resize_delta,
        alive: d.alive,
    }
}

/// `b` is `a` with the window `id` (when present) named `t` and `i`, and
/// its foreign-toplevel handle told so.
pub open spec fn named_window(a: State, b: State, id: WindowId, t: Seq<char>, i: Seq<char>) -> bool {
    &&& !has_key(a.spec_windows(), id) ==> b == a
    &&& has_key(a.spec_windows(), id) ==> {
        let d = data_of(a.spec_windows(), id);
        let d2 = data_of(b.spec_windows(), id);
        &&& b.spec_windows() == a.spec_windows().update(key_index(a.spec_windows(), id), (id, d2))
        &&& d2 == with_names(d, d2.title, d2.app_id)
        &&& d2.title@ == t
        &&& d2.app_id@ == i
        &&& b.spec_effects() == a.spec_effects().push(Effect::ForeignToplevelMetadata { window: id })
        &&& b.spec_surfaces() == a.spec_surfaces()
        &&& b.spec_order() == a.spec_order()
        &&& same_places(a, b)
        &&& same_focus(a, b)
        &&& same_redraw(a, b)
    }
}

/// `b` is `a` with the window `id` (when present) made floating, at the
/// default floating geometry, when `float`, and pinned when `pin`.
pub open spec fn rule_flags_set(a: State, b: State, id: WindowId, float: bool, pin: bool) -> bool {
    &&& !has_key(a.spec_windows(), id) ==> b == a
    &&& has_key(a.spec_windows(), id) ==> {
        let d = data_of(a.spec_windows(), id);
        let f1 = if float { WindowFlags { floating: true, ..d.flags } } else { d.flags };
        let f2 = if pin { WindowFlags { pinned: true, ..f1 } } else { f1 };
        let g = if float { a.spec_floating_geometry() } else { d.geometry };
        entry_replaced(a, b, id, with_geometry(with_flags(d, f2), g))
    }
}

/// The characters of an optional string; none for a missing one.
pub open spec fn opt_chars(o: Option<String>) -> Seq<char> {
    match o {
        Some(x) => x@,
        None => Seq::empty(),
    }
}

/// `b` is `a` after `new_toplevel` took in window `id` for `surface` with
/// title `t` and app id `i` under the window rules `rules`, answering
/// `size` for the first configure.
pub open spec fn toplevel_created(
    a: State,
    b: State,
    id: WindowId,
    size: Size,
    surface: u64,
    t: Seq<char>,
    i: Seq<char>,
    rules: Seq<WindowRule>,
) -> bool {
    let m = first_rule(rules, i, t, rules.len() as int);
    exists|s1: State, s2: State, s3: State, s4: State|
        #![trigger window_added(a, s1, id, surface, true, Rect::spec_from_size(0, 0)), named_window(s1, s2, id, t, i), rule_flags_set(s3, s4, id, rule_floats(m), rule_pins(m))]
        {
        &&& s1.wf() && s2.wf() && s3.wf() && s4.wf()
        &&& window_added(a, s1, id, surface, true, Rect::spec_from_size(0, 0))
        &&& named_window(s1, s2, id, t, i)
        &&& (match rule_workspace(m) {
            Some(w) => workspace_move_done(s2, s3, id, w),
            None => s3 == s2,
        })
        &&& rule_flags_set(s3, s4, id, rule_floats(m), rule_pins(m))
        &&& redrawn(s4, b)
        &&& same_places(s4, b)
        &&& same_windows(s4, b)
        &&& same_focus(s4, b)
        &&& b.spec_effects() == s4.spec_effects()
        &&& size == (if has_key(s4.spec_windows(), id) {
            data_of(s4.spec_windows(), id).geometry.size
        } else {
            Size { w: 0, h: 0 }
        })
    }
}

/// The rule makes windows float.
pub open spec fn rule_floats(m: Option<RuleSettings>) -> bool {
    m matches Some((_, Some(true), _))
}

/// The rule pins windows.
pub open spec fn rule_pins(m: Option<RuleSettings>) -> bool {
    m matches Some((_, _, Some(true)))
}

/// The workspace a rule sends windows to, when it is one of 1 to 10.
pub open spec fn rule_workspace(m: Option<RuleSettings>) -> Option<u32> {
    match m {
        Some((Some(w), _, _)) => if valid_workspace(w) {
            Some(w)
        } else {
            None
        },
        _ => None,
    }
}

/// An area moved by `(ox, oy)` keeps its corner in `i32` range.
pub open spec fn offset_fits(a: Area, ox: int, oy: int) -> bool {
    fits_i32(a.0 + ox) && fits_i32(a.1 + oy)
}

/// Everything but the window counter is the same.
pub open spec fn all_but_next_id(a: State, b: State) -> bool {
    &&& a.spec_workspaces() == b.spec_workspaces()
    &&& a.spec_outputs() == b.spec_outputs()
    &&& a.spec_layout() == b.spec_layout()
    &&& a.spec_output_size() == b.spec_output_size()
    &&& a.spec_tiling_area() == b.spec_tiling_area()
    &&& a.spec_master_extent() == b.spec_master_extent()
    &&& a.spec_floating_geometry() == b.spec_floating_geometry()
    &&& a.spec_output_manager() == b.spec_output_manager()
    &&& a.spec_output_id() == b.spec_output_id()
    &&& same_windows(a, b)
    &&& same_focus(a, b)
    &&& same_redraw(a, b)
    &&& a.spec_effects() == b.spec_effects()
}

/// `d` with geometry `g`.
pub open spec fn with_geometry(d: WindowData, g: Rect) -> WindowData {
    WindowData {
        id: d.id,
        surface: d.surface,
        has_toplevel: d.has_toplevel,
        flags: d.flags,
        geometry: g,
        workspace: d.workspace,
        title: d.title,
        app_id: d.app_id,
        opacity_bits: d.opacity_bits,
        resize_delta: d.resize_delta,
        alive: d.alive,
    }
}

/// What the layout reads of the windows `ids` that are present in `ws`, in
/// the order of `ids`.
pub open spec fn layout_windows(ids: Seq<WindowId>, ws: Seq<(WindowId, WindowData)>) -> Seq<LayoutWindow>
    decreases ids.len(),
{
    if ids.len() == 0 {
        Seq::empty()
    } else {
        let before = layout_windows(ids.drop_last(), ws);
        let id = ids.last();
        if has_key(ws, id) {
            before.push(LayoutWindow { id, flags: data_of(ws, id).flags, geometry: data_of(ws, id).geometry })
        } else {
            before
        }
    }
}

/// The area given to `id` among the first `n` placements: that of its last
/// placement.
pub open spec fn placement_of(ids: Seq<WindowId>, areas: Seq<Area>, id: WindowId, n: int) -> Option<Area>
    decreases n,
{
    if n <= 0 {
        None
    } else if ids[n - 1] == id {
        Some(areas[n - 1])
    } else {
        placement_of(ids, areas, id, n - 1)
    }
}

/// An area moved by `(dx, dy)`, as a rectangle.
pub open spec fn moved_rect(a: Area, dx: int, dy: int) -> Rect {
    Rect { loc: Point { x: (a.0 + dx) as i32, y: (a.1 + dy) as i32 }, size: Size { w: a.2 as i32, h: a.3 as i32 } }
}

/// The window-management state of the compositor: the windows, their
/// stacking order and the keyboard focus, the workspaces, the layout, and
/// the work it leaves for the compositor (`effects`).
pub struct State {
    windows: Vec<(WindowId, WindowData)>,
    surface_to_window: Vec<(u64, WindowId)>,
    window_order: Vec<WindowId>,
    focused_surface: Option<u64>,
    serial_counter: u32,
    workspaces: WorkspaceSet,
    output_workspaces: OutputWorkspaces,
    layout_engine: LayoutEngine,
    output_size: Size,
    tiling_area: Rect,
    master_extent: i32,
    floating_geometry: Rect,
    output_manager: OutputManager,
    output_id: Option<OutputId>,
    needs_redraw: bool,
    damage_tracker: DamageTracker,
    next_window_id: u64,
    effects: Vec<Effect>,
}

impl State {
    pub closed spec fn spec_windows(&self) -> Seq<(WindowId, WindowData)> {
        self.windows@
    }

    pub closed spec fn spec_surfaces(&self) -> Seq<(u64, WindowId)> {
        self.surface_to_window@
    }

    pub closed spec fn spec_order(&self) -> Seq<WindowId> {
        self.window_order@
    }

    pub closed spec fn spec_focus(&self) -> Option<u64> {
        self.focused_surface
    }

    pub closed spec fn spec_serial(&self) -> u32 {
        self.serial_counter
    }

    pub closed spec fn spec_workspaces(&self) -> WorkspaceSet {
        self.workspaces
    }

    pub closed spec fn spec_outputs(&self) -> OutputWorkspaces {
        self.output_workspaces
    }

    pub closed spec fn spec_layout(&self) -> LayoutEngine {
        self.layout_engine
    }

    pub closed spec fn spec_output_size(&self) -> Size {
        self.output_size
    }

    pub closed spec fn spec_tiling_area(&self) -> Rect {
        self.tiling_area
    }

    pub closed spec fn spec_master_extent(&self) -> i32 {
        self.master_extent
    }

    pub closed spec fn spec_floating_geometry(&self) -> Rect {
        self.floating_geometry
    }

    pub closed spec fn spec_output_manager(&self) -> OutputManager {
        self.output_manager
    }

    pub closed spec fn spec_output_id(&self) -> Option<OutputId> {
        self.output_id
    }

    pub closed spec fn spec_needs_redraw(&self) -> bool {
        self.needs_redraw
    }

    pub closed spec fn spec_damage(&self) -> DamageTracker {
        self.damage_tracker
    }

    pub closed spec fn spec_next_id(&self) -> u64 {
        self.next_window_id
    }

    pub closed spec fn spec_effects(&self) -> Seq<Effect> {
        self.effects@
    }

    /// Window keys are distinct and the parts are well formed.
    pub open spec fn wf(&self) -> bool {
        &&& keys_distinct(self.spec_windows())
        &&& self.spec_workspaces().wf()
        &&& self.spec_outputs().wf()
        &&& self.spec_layout().wf()
        &&& self.spec_damage().wf()
        &&& self.spec_output_manager().wf()
    }

    /// The workspace being shown.
    pub open spec fn active_ws(&self) -> u32 {
        shown_workspace(self.spec_outputs())
    }

    /// A fresh state: no windows, one output `default_output` showing
    /// workspace 1, a 1920x1080 output with the whole output to tile.
    pub fn new(default_output: OutputId) -> (s: State)
        ensures
            s.wf(),
            s.spec_windows().len() == 0,
            s.spec_surfaces().len() == 0,
            s.spec_order().len() == 0,
            s.spec_focus() is None,
            s.spec_serial() == 0,
            s.spec_workspaces().spec_active() == 1,
            s.spec_workspaces().all_empty(),
            s.spec_outputs().spec_entries().len() == 1,
            s.spec_outputs().spec_entries()[0].0 == default_output,
            fresh_set(s.spec_outputs().spec_entries()[0].1, None),
            s.spec_outputs().spec_primary() == Some(default_output),
            s.spec_outputs().spec_focused() == Some(default_output),
            s.spec_output_size() == (Size { w: 1920, h: 1080 }),
            s.spec_tiling_area() == Rect::spec_from_size(1920, 1080),
            s.spec_floating_geometry() == (Rect { loc: Point { x: 384, y: 216 }, size: Size { w: 1152, h: 648 } }),
            !s.spec_needs_redraw(),
            s.spec_next_id() == 1,
            s.spec_output_manager().spec_map().spec_outputs().len() == 0,
            s.spec_output_manager().spec_changes().len() == 0,
            s.spec_output_id() is None,
            s.spec_effects().len() == 0,
            s.spec_layout().spec_mode() == LayoutMode::Dwindle,
            s.spec_layout().spec_gaps_inner() == 8,
            s.spec_layout().spec_gaps_outer() == 12,
            s.spec_layout().overrides() == Map::<u32, LayoutMode>::empty(),
            s.spec_master_extent() == 0,
            s.spec_damage().spec_damage().len() == 0,
            s.spec_damage().spec_full(),
            s.spec_damage().spec_output_size() == (1920i32, 1080i32),
            s.spec_damage().spec_frame_count() == 0,
    {
        let mut output_workspaces = OutputWorkspaces::new();
        output_workspaces.add_output(default_output, None);
        State {
            windows: Vec::new(),
            surface_to_window: Vec::new(),
            window_order: Vec::new(),
            focused_surface: None,
            serial_counter: 0,
            workspaces: WorkspaceSet::new(),
            output_workspaces,
            layout_engine: LayoutEngine::new(),
            output_size: Size::new(1920, 1080),
            tiling_area: Rect::from_size(1920, 1080),
            master_extent: 0,
            floating_geometry: Rect::new(384, 216, 1152, 648),
            output_manager: OutputManager::new(),
            output_id: None,
            needs_redraw: false,
            damage_tracker: DamageTracker::new(1920, 1080),
            next_window_id: 1,
            effects: Vec::new(),
        }
    }
}

impl State {
    /// Damages the whole output and asks for a redraw.
    pub fn mark_redraw(&mut self)
        requires
            old(self).wf(),
        ensures
            final(self).wf(),
            redrawn(*old(self), *final(self)),
            same_places(*old(self), *final(self)),
            same_windows(*old(self), *final(self)),
            same_focus(*old(self), *final(self)),
            final(self).spec_effects() == old(self).spec_effects(),
    {
        self.damage_tracker.add_full_damage();
        self.needs_redraw = true;
    }

    /// The damage recorded since the last frame.
    pub fn damage_tracker(&self) -> (r: &DamageTracker)
        ensures
            *r == self.spec_damage(),
    {
        &self.damage_tracker
    }

    /// Records a damaged region and asks for a redraw.
    pub fn mark_redraw_with_damage(&mut self, region: Rect)
        requires
            old(self).wf(),
        ensures
            final(self).wf(),
            final(self).spec_needs_redraw(),
            damage_added(old(self).spec_damage(), final(self).spec_damage(), region),
            same_places(*old(self), *final(self)),
            same_windows(*old(self), *final(self)),
            same_focus(*old(self), *final(self)),
            final(self).spec_effects() == old(self).spec_effects(),
    {
        self.damage_tracker.add_damage(region);
        self.needs_redraw = true;
    }

    /// The geometry a popup is placed against: that of the window with the
    /// keyboard focus, else the whole output.
    pub fn parent_geometry(&self) -> (r: Rect)
        requires
            self.wf(),
        ensures
            r == (match focused_window(*self) {
                Some(id) => if has_key(self.spec_windows(), id) {
                    data_of(self.spec_windows(), id).geometry
                } else {
                    Rect::spec_from_size(self.spec_output_size().w, self.spec_output_size().h)
                },
                None => Rect::spec_from_size(self.spec_output_size().w, self.spec_output_size().h),
            }),
    {
        match self.focused_window_id() {
            Some(id) => match self.find_window(id) {
                Some(k) => self.windows[k].1.geometry,
                None => Rect::from_size(self.output_size.w, self.output_size.h),
            },
            None => Rect::from_size(self.output_size.w, self.output_size.h),
        }
    }

    /// Answers whether a redraw was asked for, and clears the request.
    pub fn take_redraw_request(&mut self) -> (redraw: bool)
        ensures
            redraw == old(self).spec_needs_redraw(),
            !final(self).spec_needs_redraw(),
            final(self).spec_damage() == old(self).spec_damage(),
            same_places(*old(self), *final(self)),
            same_windows(*old(self), *final(self)),
            same_focus(*old(self), *final(self)),
            final(self).spec_effects() == old(self).spec_effects(),
    {
        let redraw = self.needs_redraw;
        self.needs_redraw = false;
        redraw
    }

    /// Hands over the effects gathered so far, oldest first.
    pub fn take_effects(&mut self) -> (r: Vec<Effect>)
        ensures
            r@ == old(self).spec_effects(),
            final(self).spec_effects().len() == 0,
            same_places(*old(self), *final(self)),
            same_windows(*old(self), *final(self)),
            same_focus(*old(self), *final(self)),
            same_redraw(*old(self), *final(self)),
    {
        let mut r: Vec<Effect> = Vec::new();
        std::mem::swap(&mut r, &mut self.effects);
        r
    }

    /// The workspace shown on the focused output, or on the primary output
    /// when none has the focus; workspace 1 without outputs.
    pub fn active_workspace_id(&self) -> (id: u32)
        requires
            self.wf(),
        ensures
            id == self.active_ws(),
    {
        let target = match self.output_workspaces.focused_output() {
            Some(o) => Some(o),
            None => self.output_workspaces.primary_output(),
        };
        match target {
            Some(oid) => match self.output_workspaces.active_workspace_id(oid) {
                Some(id) => id,
                None => 1,
            },
            None => 1,
        }
    }

    /// The window that a surface belongs to.
    pub fn window_for_surface(&self, surface: u64) -> (r: Option<WindowId>)
        ensures
            r == surface_lookup(self.spec_surfaces(), surface),
    {
        let ghost all = self.surface_to_window@;
        let mut i: usize = self.surface_to_window.len();
        assert(all.subrange(0, i as int) =~= all);
        while i > 0
            invariant
                i <= all.len(),
                all == self.surface_to_window@,
                surface_lookup(all, surface) == surface_lookup(all.subrange(0, i as int), surface),
            decreases i,
        {
            assert(all.subrange(0, i as int).drop_last() =~= all.subrange(0, i - 1));
            if self.surface_to_window[i - 1].0 == surface {
                return Some(self.surface_to_window[i - 1].1);
            }
            i -= 1;
        }
        None
    }

    /// Where the window with key `id` stands.
    fn find_window(&self, id: WindowId) -> (r: Option<usize>)
        requires
            keys_distinct(self.spec_windows()),
        ensures
            match r {
                Some(i) => i < self.spec_windows().len() && self.spec_windows()[i as int].0 == id
                    && has_key(self.spec_windows(), id) && key_index(self.spec_windows(), id) == i,
                None => !has_key(self.spec_windows(), id),
            },
    {
        let mut i: usize = 0;
        while i < self.windows.len()
            invariant
                i <= self.windows@.len(),
                keys_distinct(self.windows@),
                forall|j: int| 0 <= j < i ==> (#[trigger] self.windows@[j]).0 != id,
            decreases self.windows.len() - i,
        {
            if self.windows[i].0 == id {
                proof {
                    let ws = self.windows@;
                    assert(ws[i as int].0 == id);
                    let k = key_index(ws, id);
                    if k != i {
                        if k < i {
                            assert(ws[k].0 != ws[i as int].0);
                        } else {
                            assert(ws[i as int].0 != ws[k].0);
                        }
                    }
                }
                return Some(i);
            }
            i += 1;
        }
        None
    }

    /// Gives the keyboard focus to `surface` (or to nothing): the compositor
    /// is asked to move the focus with the current serial, which then
    /// advances.
    pub fn set_keyboard_focus(&mut self, surface: Option<u64>)
        ensures
            final(self).spec_focus() == surface,
            final(self).spec_serial() == next_serial(old(self).spec_serial()),
            final(self).spec_effects() == old(self).spec_effects().push(
                Effect::SetKeyboardFocus { target: surface, serial: old(self).spec_serial() },
            ),
            same_places(*old(self), *final(self)),
            same_windows(*old(self), *final(self)),
            same_redraw(*old(self), *final(self)),
    {
        self.focused_surface = surface;
        let serial = self.serial_counter;
        let w = self.serial_counter.wrapping_add(1);
        self.serial_counter = if w < 1 {
            1
        } else {
            w
        };
        self.effects.push(Effect::SetKeyboardFocus { target: surface, serial });
    }

    /// Announces `event` to IPC subscribers.
    pub fn emit_ipc_event(&mut self, event: IpcEvent)
        ensures
            final(self).spec_effects() == old(self).spec_effects().push(Effect::Emit { event }),
            same_places(*old(self), *final(self)),
            same_windows(*old(self), *final(self)),
            same_focus(*old(self), *final(self)),
            same_redraw(*old(self), *final(self)),
    {
        self.effects.push(Effect::Emit { event });
    }
}

impl State {
    /// The workspace that the set shows, which the layout arranges.
    pub open spec fn layout_workspace(&self) -> Workspace {
        self.spec_workspaces().workspace(self.spec_workspaces().spec_active())
    }

    /// What the layout reads: the windows of that workspace that exist.
    pub open spec fn layout_input(&self) -> Seq<LayoutWindow> {
        layout_windows(self.layout_workspace().windows@, self.spec_windows())
    }

    /// The windows the layout places, in order.
    pub open spec fn arranged_ids(&self) -> Seq<WindowId> {
        ids_of(tiled(self.layout_input()))
    }

    /// The areas the layout gives them, relative to the tiling area.
    pub open spec fn arranged_areas(&self) -> Seq<Area> {
        let t = tiled(self.layout_input());
        let e = self.spec_layout();
        let a = available_area(e.spec_gaps_outer() as int, self.spec_tiling_area().size);
        let g = e.spec_gaps_inner() as int;
        match e.layout_for(self.layout_workspace().id) {
            LayoutMode::Dwindle => dwindle(t.len(), a, g),
            LayoutMode::MasterStack => master_stack(t.len(), a, g, self.spec_master_extent() as int),
            LayoutMode::Floating => t.map_values(|w: LayoutWindow| area_of(w.geometry)),
        }
    }

    /// The layout is computed and applied when all its values, moved to the
    /// tiling area, fit in an `i32`.
    pub open spec fn layout_applies(&self) -> bool {
        let ox = self.spec_tiling_area().loc.x as int;
        let oy = self.spec_tiling_area().loc.y as int;
        &&& self.spec_layout().arrange_in_range(
            self.layout_workspace().id,
            self.spec_tiling_area().size,
            self.layout_input(),
            self.spec_master_extent() as int,
        )
        &&& forall|k: int| 0 <= k < self.arranged_ids().len() ==> offset_fits(#[trigger] self.arranged_areas()[k], ox, oy)
    }

    /// The geometry that laying out gives the window `id` with data `d`: the
    /// whole output when it is fullscreen on the shown workspace, else its
    /// place in the tiling area, else what it had.
    pub open spec fn laid_out(&self, id: WindowId, d: WindowData) -> Rect {
        let ids = self.arranged_ids();
        let p = placement_of(ids, self.arranged_areas(), id, ids.len() as int);
        if d.workspace == self.active_ws() && d.flags.fullscreen {
            Rect::spec_from_size(self.spec_output_size().w, self.spec_output_size().h)
        } else if self.layout_applies() && p is Some {
            moved_rect(p.unwrap(), self.spec_tiling_area().loc.x as int, self.spec_tiling_area().loc.y as int)
        } else {
            d.geometry
        }
    }

    /// Lays out the shown workspace in the tiling area, puts fullscreen
    /// windows of the shown workspace over the whole output, and asks for a
    /// redraw. A layout whose values would leave the `i32` range is not
    /// applied.
    pub fn apply_layout(&mut self)
        requires
            old(self).wf(),
        ensures
            final(self).wf(),
            laid_out_state(*old(self), *final(self)),
    {
        let ghost old_ws = self.windows@;
        let ghost st = *self;
        let ws = self.workspaces.active();
        let ws_id = ws.id;
        let mut lw: Vec<LayoutWindow> = Vec::new();
        let mut i: usize = 0;
        while i < ws.windows.len()
            invariant
                i <= ws.windows@.len(),
                keys_distinct(self.windows@),
                lw@ == layout_windows(ws.windows@.subrange(0, i as int), self.windows@),
            decreases ws.windows.len() - i,
        {
            let id = ws.windows[i];
            assert(ws.windows@.subrange(0, i + 1).drop_last() =~= ws.windows@.subrange(0, i as int));
            match self.find_window(id) {
                Some(k) => {
                    lw.push(LayoutWindow { id, flags: self.windows[k].1.flags, geometry: self.windows[k].1.geometry });
                },
                None => {},
            }
            i += 1;
        }
        assert(ws.windows@.subrange(0, ws.windows@.len() as int) =~= ws.windows@);
        assert(lw@ == st.layout_input());
        let size = self.tiling_area.size;
        let ox = self.tiling_area.loc.x;
        let oy = self.tiling_area.loc.y;
        let fits = self.layout_engine.arrange_fits(ws_id, size, lw.as_slice(), self.master_extent);
        let ghost ids = st.arranged_ids();
        let ghost areas = st.arranged_areas();
        if fits {
            let geos = self.layout_engine.arrange_workspace(ws_id, size, lw.as_slice(), self.master_extent);
            assert(geos@.len() == ids.len());
            let mut ok = true;
            let mut j: usize = 0;
            while j < geos.len()
                invariant
                    j <= geos@.len(),
                    geos@.len() == ids.len(),
                    forall|k: int| 0 <= k < geos@.len() ==> (#[trigger] geos@[k]).0 == ids[k] && area_of(geos@[k].1) == areas[k],
                    ok == (forall|k: int| 0 <= k < j ==> offset_fits(#[trigger] areas[k], ox as int, oy as int)),
                decreases geos.len() - j,
            {
                let g = geos[j].1;
                let x = g.loc.x as i64 + ox as i64;
                let y = g.loc.y as i64 + oy as i64;
                let here = -2147483648i64 <= x && x <= 2147483647i64 && -2147483648i64 <= y && y <= 2147483647i64;
                assert(here == offset_fits(areas[j as int], ox as int, oy as int));
                if !here {
                    ok = false;
                }
                j += 1;
            }
            assert(ok == st.layout_applies());
            if ok {
                let mut j: usize = 0;
                while j < geos.len()
                    invariant
                        j <= geos@.len(),
                        geos@.len() == ids.len(),
                        forall|k: int| 0 <= k < geos@.len() ==> (#[trigger] geos@[k]).0 == ids[k] && area_of(geos@[k].1) == areas[k],
                        forall|k: int| 0 <= k < geos@.len() ==> offset_fits(#[trigger] areas[k], ox as int, oy as int),
                        self.windows@.len() == old_ws.len(),
                        all_but_windows(st, *self),
                        forall|k: int| 0 <= k < old_ws.len() ==> #[trigger] self.windows@[k] == (old_ws[k].0, with_geometry(
                            old_ws[k].1,
                            match placement_of(ids, areas, old_ws[k].0, j as int) {
                                Some(a) => moved_rect(a, ox as int, oy as int),
                                None => old_ws[k].1.geometry,
                            },
                        )),
                        keys_distinct(self.windows@),
                    decreases geos.len() - j,
                {
                    let id = geos[j].0;
                    let g = geos[j].1;
                    assert(offset_fits(areas[j as int], ox as int, oy as int));
                    let ghost before = self.windows@;
                    match self.find_window(id) {
                        Some(k) => {
                            let r = Rect::new(g.loc.x + ox, g.loc.y + oy, g.size.w, g.size.h);
                            assert(r == moved_rect(areas[j as int], ox as int, oy as int));
                            self.windows[k].1.geometry = r;
                            assert forall|a: int, b: int| 0 <= a < b < self.windows@.len() implies (#[trigger] self.windows@[a]).0 != (#[trigger] self.windows@[b]).0 by {
                                assert(before[a].0 != before[b].0);
                            }
                        },
                        None => {},
                    }
                    j += 1;
                }
            }
        }
        assert(all_but_windows(st, *self));
        assert(self.wf());
        let active = self.active_workspace_id();
        let full = Rect::from_size(self.output_size.w, self.output_size.h);
        let ghost mid = self.windows@;
        let mut k: usize = 0;
        while k < self.windows.len()
            invariant
                k <= self.windows@.len(),
                self.windows@.len() == mid.len(),
                active == st.active_ws(),
                all_but_windows(st, *self),
                full == Rect::spec_from_size(st.spec_output_size().w, st.spec_output_size().h),
                keys_distinct(self.windows@),
                forall|a: int| 0 <= a < mid.len() ==> #[trigger] self.windows@[a] == (if a < k && mid[a].1.workspace == active && mid[a].1.flags.fullscreen {
                    (mid[a].0, with_geometry(mid[a].1, full))
                } else {
                    mid[a]
                }),
            decreases self.windows.len() - k,
        {
            if self.windows[k].1.workspace == active && self.windows[k].1.flags.fullscreen {
                let ghost before = self.windows@;
                self.windows[k].1.geometry = full;
                assert forall|a: int, b: int| 0 <= a < b < self.windows@.len() implies (#[trigger] self.windows@[a]).0 != (#[trigger] self.windows@[b]).0 by {
                    assert(before[a].0 != before[b].0);
                }
            }
            k += 1;
        }
        proof {
            assert forall|i: int| 0 <= i < old_ws.len() implies #[trigger] self.windows@[i] == (
                old_ws[i].0,
                with_geometry(old_ws[i].1, st.laid_out(old_ws[i].0, old_ws[i].1)),
            ) by {
                assert(placement_of(ids, areas, old_ws[i].0, ids.len() as int) == placement_of(
                    st.arranged_ids(),
                    st.arranged_areas(),
                    old_ws[i].0,
                    st.arranged_ids().len() as int,
                ));
            }
        }
        self.mark_redraw();
    }
}

impl State {
    fn new_window_id(&mut self) -> (id: WindowId)
        ensures
            id == WindowId(old(self).spec_next_id()),
            final(self).spec_next_id() == bumped(old(self).spec_next_id()),
            final(self).spec_windows() == old(self).spec_windows(),
            all_but_next_id(*old(self), *final(self)),
    {
        let id = WindowId(self.next_window_id);
        self.next_window_id = self.next_window_id.wrapping_add(1);
        id
    }

    fn insert_window(&mut self, id: WindowId, d: WindowData)
        requires
            keys_distinct(old(self).spec_windows()),
        ensures
            final(self).spec_windows() == inserted(old(self).spec_windows(), id, d),
            keys_distinct(final(self).spec_windows()),
            all_but_windows(*old(self), *final(self)),
    {
        let ghost before = self.windows@;
        match self.find_window(id) {
            Some(i) => {
                self.windows.set(i, (id, d));
                assert forall|a: int, b: int| 0 <= a < b < self.windows@.len() implies (#[trigger] self.windows@[a]).0 != (#[trigger] self.windows@[b]).0 by {
                    assert(before[a].0 != before[b].0);
                }
            },
            None => {
                self.windows.push((id, d));
                assert forall|a: int, b: int| 0 <= a < b < self.windows@.len() implies (#[trigger] self.windows@[a]).0 != (#[trigger] self.windows@[b]).0 by {
                    if b < before.len() {
                        assert(before[a].0 != before[b].0);
                    } else {
                        assert(before[a].0 == self.windows@[a].0);
                    }
                }
            },
        }
    }

    fn add_window_with(&mut self, surface: u64, toplevel: bool, geometry: Rect) -> (id: WindowId)
        requires
            old(self).wf(),
        ensures
            final(self).wf(),
            window_added(*old(self), *final(self), id, surface, toplevel, geometry),
    {
        let ghost a = *self;
        let id = self.new_window_id();
        let data_id = self.new_window_id();
        let mut d = if toplevel {
            WindowData::new(data_id, surface)
        } else {
            WindowData::new_x11(data_id, surface)
        };
        d.geometry = geometry;
        d.workspace = self.active_workspace_id();
        let info = WindowInfo {
            id,
            title: d.title.clone(),
            app_id: d.app_id.clone(),
            workspace: d.workspace,
            floating: d.flags.floating,
            fullscreen: d.flags.fullscreen,
            opacity_bits: d.opacity_bits,
            pinned: d.flags.pinned,
            urgent: d.flags.urgent,
        };
        let ghost dd = d;
        assert(info == info_of(id, dd));
        self.insert_window(id, d);
        self.surface_to_window.push((surface, id));
        self.window_order.push(id);
        self.workspaces.active_mut().add_window(id);
        self.set_keyboard_focus(Some(surface));
        self.effects.push(Effect::ForeignToplevelOpened { window: id });
        if toplevel {
            self.emit_ipc_event(IpcEvent::WindowOpened { window: info });
        }
        let ghost mid = *self;
        proof {
            let ws = self.windows@;
            assert(ws == inserted(a.spec_windows(), id, dd));
            assert(has_key(ws, id)) by {
                if has_key(a.spec_windows(), id) {
                    assert(ws[key_index(a.spec_windows(), id)].0 == id);
                } else {
                    assert(ws[ws.len() - 1].0 == id);
                }
            }
            let k = key_index(ws, id);
            if has_key(a.spec_windows(), id) {
                let k0 = key_index(a.spec_windows(), id);
                assert(ws[k0].0 == id);
                if k != k0 {
                    if k < k0 {
                        assert(ws[k].0 != ws[k0].0);
                    } else {
                        assert(ws[k0].0 != ws[k].0);
                    }
                }
            } else {
                let last = ws.len() - 1;
                assert(ws[last].0 == id);
                if k != last {
                    assert(ws[k].0 != ws[last].0);
                }
            }
            assert(data_of(ws, id) == dd);
            assert(self.workspaces.wf());
            assert(mid.spec_effects() =~= a.spec_effects() + seq![
                Effect::SetKeyboardFocus { target: Some(surface), serial: a.spec_serial() },
                Effect::ForeignToplevelOpened { window: id },
            ] + (if toplevel {
                seq![Effect::Emit { event: IpcEvent::WindowOpened { window: info_of(id, data_of(ws, id)) } }]
            } else {
                Seq::empty()
            }));
            assert(added_window(a, mid, id, surface, toplevel, geometry));
        }
        self.apply_layout();
        assert(laid_out_state(mid, *self));
        id
    }

    /// Takes in a new xdg toplevel window on `surface`: it joins the shown
    /// workspace on top of the stacking order with the keyboard focus, is
    /// announced, and the workspace is laid out again. Returns its key.
    pub fn add_window(&mut self, surface: u64) -> (id: WindowId)
        requires
            old(self).wf(),
        ensures
            final(self).wf(),
            window_added(*old(self), *final(self), id, surface, true, Rect::spec_from_size(0, 0)),
    {
        self.add_window_with(surface, true, Rect::from_size(0, 0))
    }

    /// Takes in a new X11 window on `surface` with the geometry it asked
    /// for, as `add_window` does, without the IPC announcement.
    pub fn add_window_from_x11(&mut self, surface: u64, geometry: Rect) -> (id: WindowId)
        requires
            old(self).wf(),
        ensures
            final(self).wf(),
            window_added(*old(self), *final(self), id, surface, false, geometry),
    {
        self.add_window_with(surface, false, geometry)
    }
}

/// What `focus_window` leaves behind.
pub open spec fn focus_window_post(before: State, after: State, id: WindowId) -> bool {
    &&& !has_key(before.spec_windows(), id) ==> after == before
    &&& has_key(before.spec_windows(), id) ==> window_focused(before, after, id)
}

impl State {
    fn remove_from_order(&mut self, id: WindowId)
        ensures
            final(self).spec_order() == without_id(old(self).spec_order(), id),
            final(self).spec_windows() == old(self).spec_windows(),
            final(self).spec_surfaces() == old(self).spec_surfaces(),
            same_places(*old(self), *final(self)),
            same_focus(*old(self), *final(self)),
            same_redraw(*old(self), *final(self)),
            final(self).spec_effects() == old(self).spec_effects(),
    {
        let mut kept: Vec<WindowId> = Vec::new();
        let mut i: usize = 0;
        while i < self.window_order.len()
            invariant
                i <= self.window_order@.len(),
                kept@ == without_id(self.window_order@.subrange(0, i as int), id),
            decreases self.window_order.len() - i,
        {
            assert(self.window_order@.subrange(0, i + 1).drop_last() =~= self.window_order@.subrange(0, i as int));
            if self.window_order[i] != id {
                kept.push(self.window_order[i]);
            }
            i += 1;
        }
        assert(self.window_order@.subrange(0, self.window_order@.len() as int) =~= self.window_order@);
        self.window_order = kept;
    }

    fn remove_surface_entries(&mut self, surface: u64)
        ensures
            final(self).spec_surfaces() == without_surface(old(self).spec_surfaces(), surface),
            final(self).spec_windows() == old(self).spec_windows(),
            final(self).spec_order() == old(self).spec_order(),
            same_places(*old(self), *final(self)),
            same_focus(*old(self), *final(self)),
            same_redraw(*old(self), *final(self)),
            final(self).spec_effects() == old(self).spec_effects(),
    {
        let mut kept: Vec<(u64, WindowId)> = Vec::new();
        let mut i: usize = 0;
        while i < self.surface_to_window.len()
            invariant
                i <= self.surface_to_window@.len(),
                kept@ == without_surface(self.surface_to_window@.subrange(0, i as int), surface),
            decreases self.surface_to_window.len() - i,
        {
            assert(self.surface_to_window@.subrange(0, i + 1).drop_last() =~= self.surface_to_window@.subrange(0, i as int));
            if self.surface_to_window[i].0 != surface {
                kept.push(self.surface_to_window[i]);
            }
            i += 1;
        }
        assert(self.surface_to_window@.subrange(0, self.surface_to_window@.len() as int) =~= self.surface_to_window@);
        self.surface_to_window = kept;
    }

    /// The window highest in the stacking order that exists.
    fn top_window_exec(&self) -> (r: Option<usize>)
        requires
            keys_distinct(self.spec_windows()),
        ensures
            match r {
                Some(k) => k < self.spec_windows().len() && top_window(self.spec_order(), self.spec_windows()) == Some(
                    self.spec_windows()[k as int].0,
                ) && key_index(self.spec_windows(), self.spec_windows()[k as int].0) == k,
                None => top_window(self.spec_order(), self.spec_windows()) is None,
            },
    {
        let ghost order = self.window_order@;
        let mut i: usize = self.window_order.len();
        assert(order.subrange(0, i as int) =~= order);
        while i > 0
            invariant
                i <= order.len(),
                order == self.window_order@,
                keys_distinct(self.windows@),
                top_window(order, self.windows@) == top_window(order.subrange(0, i as int), self.windows@),
            decreases i,
        {
            assert(order.subrange(0, i as int).drop_last() =~= order.subrange(0, i - 1));
            match self.find_window(self.window_order[i - 1]) {
                Some(k) => {
                    return Some(k);
                },
                None => {},
            }
            i -= 1;
        }
        None
    }

    /// Brings the keyboard focus back to the shown workspace when it is not
    /// on a window there.
    fn sync_focus_to_active_workspace(&mut self)
        requires
            old(self).wf(),
        ensures
            final(self).wf(),
            refocused(*old(self), *final(self)),
    {
        let active = self.active_workspace_id();
        let in_active = match self.focused_surface {
            Some(f) => match self.window_for_surface(f) {
                Some(id) => match self.find_window(id) {
                    Some(k) => self.windows[k].1.workspace == active,
                    None => false,
                },
                None => false,
            },
            None => false,
        };
        if in_active {
            return;
        }
        let target = match self.top_window_exec() {
            Some(k) => if self.windows[k].1.workspace == active {
                Some(self.windows[k].1.surface)
            } else {
                None
            },
            None => None,
        };
        self.set_keyboard_focus(target);
    }

    /// Takes window `id` out: its entry, surface index entries and place in
    /// the stacking order go, it leaves its workspace, a focus on its surface
    /// is dropped, its removal is announced, the focus is brought back to
    /// the shown workspace and the layout is redone. An unknown `id` changes
    /// nothing.
    pub fn remove_window(&mut self, id: WindowId)
        requires
            old(self).wf(),
        ensures
            final(self).wf(),
            window_removed(*old(self), *final(self), id),
    {
        let ghost a = *self;
        let k = match self.find_window(id) {
            Some(k) => k,
            None => {
                return;
            },
        };
        let ghost d = self.windows@[k as int].1;
        let (_, data) = self.windows.remove(k);
        assert forall|x: int, y: int| 0 <= x < y < self.windows@.len() implies (#[trigger] self.windows@[x]).0 != (#[trigger] self.windows@[y]).0 by {
            let xx = if x < k { x } else { x + 1 };
            let yy = if y < k { y } else { y + 1 };
            assert(a.spec_windows()[xx].0 != a.spec_windows()[yy].0);
        }
        self.effects.push(Effect::ForeignToplevelClosed { window: id });
        self.remove_surface_entries(data.surface);
        self.remove_from_order(id);
        let ghost before_ws = self.workspaces;
        match self.workspaces.get_mut(data.workspace) {
            Some(w) => {
                w.remove_window(id);
            },
            None => {},
        }
        if self.focused_surface == Some(data.surface) {
            self.focused_surface = None;
        }
        self.emit_ipc_event(IpcEvent::WindowClosed { id });
        let ghost m1 = *self;
        proof {
            assert(m1.spec_effects() =~= a.spec_effects() + seq![
                Effect::ForeignToplevelClosed { window: id },
                Effect::Emit { event: IpcEvent::WindowClosed { id } },
            ]);
            assert(removed_window(a, m1, id));
        }
        self.sync_focus_to_active_workspace();
        let ghost m2 = *self;
        self.apply_layout();
        assert(refocused(m1, m2));
    }

    /// Puts window `id` on top of the stacking order with the keyboard focus,
    /// announces it and asks for a redraw; an unknown `id` changes nothing.
    pub fn focus_window(&mut self, id: WindowId)
        requires
            old(self).wf(),
        ensures
            final(self).wf(),
            focus_window_post(*old(self), *final(self), id),
    {
        let ghost a = *self;
        let k = match self.find_window(id) {
            Some(k) => k,
            None => {
                return;
            },
        };
        let surface = self.windows[k].1.surface;
        self.remove_from_order(id);
        self.window_order.push(id);
        self.set_keyboard_focus(Some(surface));
        self.emit_ipc_event(IpcEvent::WindowFocused { id });
        self.mark_redraw();
        assert(self.spec_effects() =~= a.spec_effects() + seq![
            Effect::SetKeyboardFocus { target: Some(surface), serial: a.spec_serial() },
            Effect::Emit { event: IpcEvent::WindowFocused { id } },
        ]);
    }
}

/// What `switch_workspace` leaves behind.
pub open spec fn switch_workspace_post(before: State, after: State, workspace_id: u32) -> bool {
    &&& !valid_workspace(workspace_id) ==> after == before
    &&& valid_workspace(workspace_id) ==> exists|m1: State, m2: State, m3: State|
        #![trigger refocused(m1, m2), laid_out_state(m2, m3)]
        m1.wf() && m2.wf() && m3.wf() && switched_to(before, m1, workspace_id) && refocused(m1, m2)
            && laid_out_state(m2, m3) && emitted(m3, after, IpcEvent::WorkspaceChanged { workspace: workspace_id })
}

impl State {
    /// Shows workspace `workspace_id` (1 to 10; other ids are ignored): the
    /// set and the focused (else primary) output switch to it, the focus is
    /// brought back to it, it is laid out, and the change is announced.
    pub fn switch_workspace(&mut self, workspace_id: u32)
        requires
            old(self).wf(),
        ensures
            final(self).wf(),
            switch_workspace_post(*old(self), *final(self), workspace_id),
    {
        if !(1 <= workspace_id && workspace_id <= WORKSPACE_COUNT) {
            return;
        }
        let ghost a = *self;
        let target = match self.output_workspaces.focused_output() {
            Some(o) => Some(o),
            None => self.output_workspaces.primary_output(),
        };
        self.workspaces.switch_to(workspace_id);
        match target {
            Some(oid) => {
                self.output_workspaces.switch_workspace(oid, workspace_id);
            },
            None => {},
        }
        let ghost m1 = *self;
        assert(switched_to(a, m1, workspace_id));
        self.sync_focus_to_active_workspace();
        let ghost m2 = *self;
        self.apply_layout();
        let ghost m3 = *self;
        self.emit_ipc_event(IpcEvent::WorkspaceChanged { workspace: workspace_id });
        assert(refocused(m1, m2) && laid_out_state(m2, m3));
    }

    /// Moves window `window_id` to workspace `workspace_id` (1 to 10): it
    /// leaves its workspace and joins the new one, the focus is brought back
    /// to the shown workspace, the move is announced and the layout redone.
    /// An invalid workspace, an unknown window or a window already there
    /// changes nothing.
    pub fn move_window_to_workspace(&mut self, window_id: WindowId, workspace_id: u32)
        requires
            old(self).wf(),
        ensures
            final(self).wf(),
            workspace_move_done(*old(self), *final(self), window_id, workspace_id),
    {
        if !(1 <= workspace_id && workspace_id <= WORKSPACE_COUNT) {
            return;
        }
        let ghost a = *self;
        let k = match self.find_window(window_id) {
            Some(k) => k,
            None => {
                return;
            },
        };
        let old_workspace = self.windows[k].1.workspace;
        if old_workspace == workspace_id {
            return;
        }
        match self.workspaces.get_mut(old_workspace) {
            Some(w) => {
                w.remove_window(window_id);
            },
            None => {},
        }
        let ghost s1 = self.workspaces;
        match self.workspaces.get_mut(workspace_id) {
            Some(w) => {
                w.add_window(window_id);
            },
            None => {},
        }
        proof {
            let s0 = a.spec_workspaces();
            let s2 = self.workspaces;
            assert forall|x: u32| valid_workspace(x) && x != old_workspace && x != workspace_id implies #[trigger] s2.workspace(x) == s0.workspace(x) by {
                assert(s2.workspace(x) == s1.workspace(x));
            }
            if valid_workspace(old_workspace) {
                assert(s2.workspace(old_workspace) == s1.workspace(old_workspace));
            }
            assert(s1.workspace(workspace_id) == s0.workspace(workspace_id));
            assert(set_moved(s0, s2, window_id, old_workspace, workspace_id));
        }
        self.windows[k].1.workspace = workspace_id;
        let ghost m1 = *self;
        proof {
            let ws = self.windows@;
            assert(ws =~= a.spec_windows().update(k as int, (window_id, with_workspace(a.spec_windows()[k as int].1, workspace_id))));
            assert forall|x: int, y: int| 0 <= x < y < ws.len() implies (#[trigger] ws[x]).0 != (#[trigger] ws[y]).0 by {
                assert(a.spec_windows()[x].0 != a.spec_windows()[y].0);
            }
            assert(moved_window(a, m1, window_id, workspace_id));
        }
        self.sync_focus_to_active_workspace();
        let ghost m2 = *self;
        self.emit_ipc_event(IpcEvent::WindowMoved { id: window_id, from_workspace: old_workspace, to_workspace: workspace_id });
        let ghost m3 = *self;
        self.apply_layout();
        assert(refocused(m1, m2) && laid_out_state(m3, *self));
    }
}

/// What `toggle_floating` leaves behind.
pub open spec fn toggle_floating_post(before: State, after: State, id: WindowId) -> bool {
    &&& !has_key(before.spec_windows(), id) ==> after == before
    &&& has_key(before.spec_windows(), id) ==> exists|m: State| #![trigger laid_out_state(m, after)]
        m.wf() && entry_replaced(before, m, id, floating_toggled(data_of(before.spec_windows(), id), before.spec_floating_geometry()))
            && laid_out_state(m, after)
}

/// What `toggle_fullscreen` leaves behind.
pub open spec fn toggle_fullscreen_post(before: State, after: State, id: WindowId) -> bool {
    &&& !has_key(before.spec_windows(), id) ==> after == before
    &&& has_key(before.spec_windows(), id) ==> exists|m: State| #![trigger laid_out_state(m, after)]
        m.wf() && entry_replaced(before, m, id, fullscreen_toggled(data_of(before.spec_windows(), id), before.spec_output_size()))
            && laid_out_state(m, after)
}

/// What `kill_window` leaves behind.
pub open spec fn kill_window_post(before: State, after: State, id: WindowId) -> bool {
    &&& same_places(before, after)
    &&& same_windows(before, after)
    &&& same_focus(before, after)
    &&& same_redraw(before, after)
    &&& after.spec_effects() == (if has_key(before.spec_windows(), id) {
        before.spec_effects().push(Effect::CloseWindow {
            surface: data_of(before.spec_windows(), id).surface,
            has_toplevel: data_of(before.spec_windows(), id).has_toplevel,
        })
    } else {
        before.spec_effects()
    })
}

/// What `swap_windows` leaves behind.
pub open spec fn swap_windows_post(before: State, after: State, a: WindowId, b: WindowId) -> bool {
    &&& exists|m: State| #![trigger laid_out_state(m, after)]
        m.wf() && laid_out_state(m, after) && {
            let ws = before.spec_windows();
            let cross = has_key(ws, a) && has_key(ws, b) && data_of(ws, a).workspace != data_of(ws, b).workspace;
            let wa = data_of(ws, a).workspace;
            let wb = data_of(ws, b).workspace;
            &&& m.spec_order() == order_swapped(before.spec_order(), a, b)
            &&& m.spec_surfaces() == before.spec_surfaces()
            &&& cross ==> m.spec_windows() == ws.update(key_index(ws, a), (a, with_workspace(data_of(ws, a), wb))).update(
                key_index(ws, b),
                (b, with_workspace(data_of(ws, b), wa)),
            )
            &&& cross ==> exists|s1: WorkspaceSet| set_moved(before.spec_workspaces(), s1, a, wa, wb) && #[trigger] set_moved(
                s1,
                m.spec_workspaces(),
                b,
                wb,
                wa,
            )
            &&& !cross ==> m.spec_windows() == ws && m.spec_workspaces() == before.spec_workspaces()
            &&& m.spec_outputs() == before.spec_outputs()
            &&& m.spec_layout() == before.spec_layout()
            &&& m.spec_output_size() == before.spec_output_size()
            &&& m.spec_tiling_area() == before.spec_tiling_area()
            &&& m.spec_master_extent() == before.spec_master_extent()
            &&& m.spec_floating_geometry() == before.spec_floating_geometry()
            &&& m.spec_output_manager() == before.spec_output_manager()
            &&& m.spec_output_id() == before.spec_output_id()
            &&& m.spec_next_id() == before.spec_next_id()
            &&& same_focus(before, m)
            &&& same_redraw(before, m)
            &&& m.spec_effects() == before.spec_effects()
        }
}

/// What `toggle_pinned` leaves behind.
pub open spec fn toggle_pinned_post(before: State, after: State, id: WindowId) -> bool {
    &&& !has_key(before.spec_windows(), id) ==> after == before
    &&& has_key(before.spec_windows(), id) ==> {
        let d = data_of(before.spec_windows(), id);
        &&& after.spec_windows() == before.spec_windows().update(
            key_index(before.spec_windows(), id),
            (id, with_flags(d, WindowFlags { pinned: !d.flags.pinned, ..d.flags })),
        )
        &&& after.spec_surfaces() == before.spec_surfaces()
        &&& after.spec_order() == before.spec_order()
        &&& same_places(before, after)
        &&& same_focus(before, after)
        &&& redrawn(before, after)
        &&& after.spec_effects() == before.spec_effects()
    }
}

impl State {
    /// Takes window `w` off workspace `from` and puts it on workspace `to`.
    fn move_window_in_set(&mut self, w: WindowId, from: u32, to: u32)
        requires
            old(self).wf(),
            from != to,
        ensures
            final(self).wf(),
            set_moved(old(self).spec_workspaces(), final(self).spec_workspaces(), w, from, to),
            final(self).spec_windows() == old(self).spec_windows(),
            final(self).spec_surfaces() == old(self).spec_surfaces(),
            final(self).spec_order() == old(self).spec_order(),
            final(self).spec_outputs() == old(self).spec_outputs(),
            final(self).spec_layout() == old(self).spec_layout(),
            final(self).spec_output_size() == old(self).spec_output_size(),
            final(self).spec_tiling_area() == old(self).spec_tiling_area(),
            final(self).spec_master_extent() == old(self).spec_master_extent(),
            final(self).spec_floating_geometry() == old(self).spec_floating_geometry(),
            final(self).spec_output_manager() == old(self).spec_output_manager(),
            final(self).spec_output_id() == old(self).spec_output_id(),
            final(self).spec_next_id() == old(self).spec_next_id(),
            same_focus(*old(self), *final(self)),
            same_redraw(*old(self), *final(self)),
            final(self).spec_effects() == old(self).spec_effects(),
    {
        let ghost s0 = self.workspaces;
        match self.workspaces.get_mut(from) {
            Some(ws) => {
                ws.remove_window(w);
            },
            None => {},
        }
        let ghost s1 = self.workspaces;
        match self.workspaces.get_mut(to) {
            Some(ws) => {
                ws.add_window(w);
            },
            None => {},
        }
        proof {
            let s2 = self.workspaces;
            assert forall|x: u32| valid_workspace(x) && x != from && x != to implies #[trigger] s2.workspace(x) == s0.workspace(x) by {
                assert(s2.workspace(x) == s1.workspace(x));
            }
            if valid_workspace(from) {
                assert(s2.workspace(from) == s1.workspace(from));
            }
            if valid_workspace(to) {
                assert(s1.workspace(to) == s0.workspace(to));
            }
        }
    }

    fn replace_entry(&mut self, k: usize, d: WindowData)
        requires
            old(self).wf(),
            k < old(self).spec_windows().len(),
        ensures
            final(self).wf(),
            final(self).spec_windows() == old(self).spec_windows().update(k as int, (old(self).spec_windows()[k as int].0, d)),
            all_but_windows(*old(self), *final(self)),
    {
        let ghost before = self.windows@;
        let id = self.windows[k].0;
        self.windows.set(k, (id, d));
        assert forall|a: int, b: int| 0 <= a < b < self.windows@.len() implies (#[trigger] self.windows@[a]).0 != (#[trigger] self.windows@[b]).0 by {
            assert(before[a].0 != before[b].0);
        }
    }

    fn take_entry(&mut self, k: usize) -> (d: WindowData)
        requires
            old(self).wf(),
            k < old(self).spec_windows().len(),
        ensures
            d == old(self).spec_windows()[k as int].1,
            final(self).wf(),
            final(self).spec_windows().len() == old(self).spec_windows().len(),
            forall|i: int| 0 <= i < old(self).spec_windows().len() && i != k ==> #[trigger] final(self).spec_windows()[i] == old(self).spec_windows()[i],
            final(self).spec_windows()[k as int].0 == old(self).spec_windows()[k as int].0,
            all_but_windows(*old(self), *final(self)),
    {
        let ghost before = self.windows@;
        let id = self.windows[k].0;
        let mut entry = (id, WindowData::new(WindowId(0), 0));
        std::mem::swap(&mut self.windows[k], &mut entry);
        assert forall|a: int, b: int| 0 <= a < b < self.windows@.len() implies (#[trigger] self.windows@[a]).0 != (#[trigger] self.windows@[b]).0 by {
            assert(before[a].0 != before[b].0);
        }
        entry.1
    }

    /// Turns over the floating flag of window `id`; a window that starts to
    /// float takes the default floating geometry. The layout is redone. An
    /// unknown `id` changes nothing.
    pub fn toggle_floating(&mut self, id: WindowId)
        requires
            old(self).wf(),
        ensures
            final(self).wf(),
            toggle_floating_post(*old(self), *final(self), id),
    {
        let k = match self.find_window(id) {
            Some(k) => k,
            None => {
                return;
            },
        };
        let ghost a = *self;
        let mut d = self.take_entry(k);
        d.flags.floating = !d.flags.floating;
        if d.flags.floating {
            d.geometry = self.floating_geometry;
        }
        self.replace_entry(k, d);
        let ghost m = *self;
        assert(self.windows@ =~= a.spec_windows().update(k as int, (id, floating_toggled(data_of(a.spec_windows(), id), a.spec_floating_geometry()))));
        self.apply_layout();
        assert(laid_out_state(m, *self));
    }

    /// Turns over the fullscreen flag of window `id`; a window that becomes
    /// fullscreen covers the whole output. The layout is redone. An unknown
    /// `id` changes nothing.
    pub fn toggle_fullscreen(&mut self, id: WindowId)
        requires
            old(self).wf(),
        ensures
            final(self).wf(),
            toggle_fullscreen_post(*old(self), *final(self), id),
    {
        let k = match self.find_window(id) {
            Some(k) => k,
            None => {
                return;
            },
        };
        let ghost a = *self;
        let mut d = self.take_entry(k);
        d.flags.fullscreen = !d.flags.fullscreen;
        if d.flags.fullscreen {
            d.geometry = Rect::from_size(self.output_size.w, self.output_size.h);
        }
        self.replace_entry(k, d);
        let ghost m = *self;
        assert(self.windows@ =~= a.spec_windows().update(k as int, (id, fullscreen_toggled(data_of(a.spec_windows(), id), a.spec_output_size()))));
        self.apply_layout();
        assert(laid_out_state(m, *self));
    }

    /// Turns over the pinned flag of window `id` (a pinned window shows on
    /// every workspace) and asks for a redraw. An unknown `id` changes
    /// nothing.
    pub fn toggle_pinned(&mut self, id: WindowId)
        requires
            old(self).wf(),
        ensures
            final(self).wf(),
            toggle_pinned_post(*old(self), *final(self), id),
    {
        let k = match self.find_window(id) {
            Some(k) => k,
            None => {
                return;
            },
        };
        let ghost a = *self;
        let mut d = self.take_entry(k);
        d.flags.pinned = !d.flags.pinned;
        self.replace_entry(k, d);
        assert(self.windows@ =~= a.spec_windows().update(k as int, (id, with_flags(data_of(a.spec_windows(), id), WindowFlags { pinned: !data_of(a.spec_windows(), id).flags.pinned, ..data_of(a.spec_windows(), id).flags }))));
        self.mark_redraw();
    }

    /// Asks the client of window `id` to close it; an unknown `id` asks
    /// nothing.
    pub fn kill_window(&mut self, id: WindowId)
        requires
            old(self).wf(),
        ensures
            final(self).wf(),
            kill_window_post(*old(self), *final(self), id),
    {
        match self.find_window(id) {
            Some(k) => {
                let surface = self.windows[k].1.surface;
                let has_toplevel = self.windows[k].1.has_toplevel;
                self.effects.push(Effect::CloseWindow { surface, has_toplevel });
            },
            None => {},
        }
    }

    fn order_position(&self, id: WindowId) -> (r: Option<usize>)
        ensures
            match r {
                Some(i) => first_at(self.spec_order(), id, i as int),
                None => !exists|i: int| first_at(self.spec_order(), id, i),
            },
    {
        let mut i: usize = 0;
        while i < self.window_order.len()
            invariant
                i <= self.window_order@.len(),
                forall|j: int| 0 <= j < i ==> self.window_order@[j] != id,
            decreases self.window_order.len() - i,
        {
            if self.window_order[i] == id {
                return Some(i);
            }
            i += 1;
        }
        None
    }

    /// Exchanges two windows: when both exist on different workspaces each
    /// takes the other's workspace; their places in the stacking order are
    /// exchanged when both occur there; the layout is redone.
    pub fn swap_windows(&mut self, a: WindowId, b: WindowId)
        requires
            old(self).wf(),
        ensures
            final(self).wf(),
            swap_windows_post(*old(self), *final(self), a, b),
    {
        let ghost st = *self;
        let ka = self.find_window(a);
        let kb = self.find_window(b);
        match (ka, kb) {
            (Some(ia), Some(ib)) => {
                let wa = self.windows[ia].1.workspace;
                let wb = self.windows[ib].1.workspace;
                if wa != wb {
                    let mut da = self.take_entry(ia);
                    da.workspace = wb;
                    self.replace_entry(ia, da);
                    let mut db = self.take_entry(ib);
                    db.workspace = wa;
                    self.replace_entry(ib, db);
                    assert(self.windows@ =~= st.spec_windows().update(ia as int, (a, with_workspace(data_of(st.spec_windows(), a), wb))).update(
                        ib as int,
                        (b, with_workspace(data_of(st.spec_windows(), b), wa)),
                    ));
                    self.move_window_in_set(a, wa, wb);
                    let ghost s1 = self.workspaces;
                    self.move_window_in_set(b, wb, wa);
                    assert(set_moved(s1, self.workspaces, b, wb, wa));
                }
            },
            _ => {},
        }
        match (self.order_position(a), self.order_position(b)) {
            (Some(pa), Some(pb)) => {
                proof {
                    let o = self.window_order@;
                    let ci = choose|i: int| first_at(o, a, i);
                    let cj = choose|j: int| first_at(o, b, j);
                    assert(ci == pa as int) by {
                        if ci < pa as int {
                            assert(o[ci] == a);
                        }
                        if ci > pa as int {
                            assert(o[pa as int] == a);
                        }
                    }
                    assert(cj == pb as int) by {
                        if cj < pb as int {
                            assert(o[cj] == b);
                        }
                        if cj > pb as int {
                            assert(o[pb as int] == b);
                        }
                    }
                }
                let ghost o = self.window_order@;
                let x = self.window_order[pa];
                let y = self.window_order[pb];
                self.window_order.set(pa, y);
                self.window_order.set(pb, x);
                assert(self.window_order@ =~= o.update(pa as int, b).update(pb as int, a)) by {
                    if pa == pb {
                        assert(a == b);
                    }
                }
            },
            _ => {},
        }
        let ghost m = *self;
        self.apply_layout();
        assert(laid_out_state(m, *self));
    }
}

fn center_exec(r: Rect) -> (c: (i64, i64))
    ensures
        c.0 as int == center(r).0,
        c.1 as int == center(r).1,
        -0x1_0000_0000 <= c.0 <= 0x1_0000_0000,
        -0x1_0000_0000 <= c.1 <= 0x1_0000_0000,
{
    (r.loc.x as i64 + (r.size.w as i64) / 2, r.loc.y as i64 + (r.size.h as i64) / 2)
}

fn abs_exec(x: i64) -> (r: i64)
    requires
        x > i64::MIN,
    ensures
        r == abs(x as int),
{
    if x < 0 {
        -x
    } else {
        x
    }
}

/// What `focus_direction` leaves behind.
pub open spec fn focus_direction_post(before: State, after: State, dir: Direction) -> bool {
    &&& match focus_direction_target(before, dir) {
        Some(id) => has_key(before.spec_windows(), id) && window_focused(before, after, id),
        None => after == before,
    }
}

impl State {
    /// Moves the keyboard focus in direction `dir`: from the focused window
    /// to the closest live, non-fullscreen window of the shown workspace whose
    /// centre lies that way (distances between centres compared exactly);
    /// without a focused window, to the first live window of the shown
    /// workspace in stacking order. Answers whether a window got the focus.
    pub fn focus_direction(&mut self, dir: Direction) -> (moved: bool)
        requires
            old(self).wf(),
        ensures
            final(self).wf(),
            moved == (focus_direction_target(*old(self), dir) is Some),
            focus_direction_post(*old(self), *final(self), dir),
    {
        let ghost st = *self;
        let active = self.active_workspace_id();
        let focused_id = match self.focused_surface {
            Some(f) => self.window_for_surface(f),
            None => None,
        };
        assert(focused_id == focused_window(st));
        let focused_k = match focused_id {
            Some(id) => self.find_window(id),
            None => None,
        };
        match focused_k {
            None => {
                let mut i: usize = 0;
                while i < self.window_order.len()
                    invariant
                        i <= self.window_order@.len(),
                        *self == st,
                        st == *old(self),
                        st.wf(),
                        active == st.active_ws(),
                        !(focused_window(st) is Some && has_key(st.spec_windows(), focused_window(st).unwrap())),
                        first_on(self.window_order@, self.windows@, active, i as int) is None,
                    decreases self.window_order.len() - i,
                {
                    let id = self.window_order[i];
                    match self.find_window(id) {
                        Some(k) => {
                            if self.windows[k].1.workspace == active && self.windows[k].1.alive {
                                assert(first_on(self.window_order@, self.windows@, active, i + 1) == Some(id));
                                proof {
                                    lemma_first_on_stable(self.window_order@, self.windows@, active, i + 1, self.window_order@.len() as int);
                                    assert(focus_direction_target(st, dir) == Some(id));
                                    assert(has_key(st.spec_windows(), id));
                                }
                                self.focus_window(id);
                                return true;
                            }
                        },
                        None => {},
                    }
                    i += 1;
                }
                false
            },
            Some(fk) => {
                let from = center_exec(self.windows[fk].1.geometry);
                let ghost sfrom = center(self.windows@[fk as int].1.geometry);
                let mut best: Option<(WindowId, i128)> = None;
                let mut i: usize = 0;
                while i < self.windows.len()
                    invariant
                        i <= self.windows@.len(),
                        *self == st,
                        st.wf(),
                        active == st.active_ws(),
                        from.0 as int == sfrom.0 && from.1 as int == sfrom.1,
                        -0x1_0000_0000 <= from.0 <= 0x1_0000_0000,
                        -0x1_0000_0000 <= from.1 <= 0x1_0000_0000,
                        match best {
                            Some((b, bd)) => closest_candidate(self.windows@, i as int, focused_id, active, dir, sfrom)
                                == Some((b, bd as int)),
                            None => closest_candidate(self.windows@, i as int, focused_id, active, dir, sfrom) is None,
                        },
                    decreases self.windows.len() - i,
                {
                    let id = self.windows[i].0;
                    let d = &self.windows[i].1;
                    let c = center_exec(d.geometry);
                    let dx = c.0 - from.0;
                    let dy = c.1 - from.1;
                    assert(-0x4_0000_0000 <= dx <= 0x4_0000_0000);
                    assert(-0x4_0000_0000 <= dy <= 0x4_0000_0000);
                    let adx = abs_exec(dx);
                    let ady = abs_exec(dy);
                    let towards = match dir {
                        Direction::Left => dx < 0 && ady <= adx,
                        Direction::Right => dx > 0 && ady <= adx,
                        Direction::Up => dy < 0 && adx <= ady,
                        Direction::Down => dy > 0 && adx <= ady,
                    };
                    let is_candidate = Some(id) != focused_id && d.workspace == active && d.alive && !d.flags.fullscreen
                        && towards;
                    if is_candidate {
                        let wx = dx as i128;
                        let wy = dy as i128;
                        assert(0 <= wx * wx <= 0x10_0000_0000_0000_0000) by (nonlinear_arith)
                            requires
                                -0x4_0000_0000 <= wx <= 0x4_0000_0000,
                        ;
                        assert(0 <= wy * wy <= 0x10_0000_0000_0000_0000) by (nonlinear_arith)
                            requires
                                -0x4_0000_0000 <= wy <= 0x4_0000_0000,
                        ;
                        let dist = wx * wx + wy * wy;
                        assert(dist as int == dist2(center(d.geometry), sfrom));
                        match best {
                            Some((_, bd)) => {
                                if dist < bd {
                                    best = Some((id, dist));
                                }
                            },
                            None => {
                                best = Some((id, dist));
                            },
                        }
                    }
                    i += 1;
                }
                assert(self.windows@.len() as int == i);
                match best {
                    Some((target, _)) => {
                        proof {
                            lemma_closest_is_candidate(self.windows@, self.windows@.len() as int, focused_id, active, dir, sfrom);
                        }
                        self.focus_window(target);
                        true
                    },
                    None => false,
                }
            },
        }
    }

    /// The windows on show, bottom to top: those that are alive and pinned or
    /// on the shown workspace, as surface, corner and whether they float.
    pub fn visible_toplevel_surfaces(&self) -> (r: Vec<(u64, Point, bool)>)
        requires
            self.wf(),
        ensures
            r@ == visible_in(self.spec_order(), self.spec_windows(), self.active_ws(), self.spec_order().len() as int),
    {
        let active = self.active_workspace_id();
        let mut r: Vec<(u64, Point, bool)> = Vec::new();
        let mut i: usize = 0;
        while i < self.window_order.len()
            invariant
                i <= self.window_order@.len(),
                keys_distinct(self.windows@),
                r@ == visible_in(self.window_order@, self.windows@, active, i as int),
            decreases self.window_order.len() - i,
        {
            let id = self.window_order[i];
            match self.find_window(id) {
                Some(k) => {
                    let d = &self.windows[k].1;
                    if d.alive && (d.flags.pinned || d.workspace == active) {
                        r.push((d.surface, d.geometry.loc, d.flags.floating));
                    }
                },
                None => {},
            }
            i += 1;
        }
        r
    }

    fn surfaces_with(&self, floating: bool) -> (r: Vec<(u64, Point)>)
        requires
            self.wf(),
        ensures
            r@ == surfaces_floating(
                visible_in(self.spec_order(), self.spec_windows(), self.active_ws(), self.spec_order().len() as int),
                floating,
            ),
    {
        let v = self.visible_toplevel_surfaces();
        let mut r: Vec<(u64, Point)> = Vec::new();
        let mut i: usize = 0;
        while i < v.len()
            invariant
                i <= v@.len(),
                r@ == surfaces_floating(v@.subrange(0, i as int), floating),
            decreases v.len() - i,
        {
            assert(v@.subrange(0, i + 1).drop_last() =~= v@.subrange(0, i as int));
            if v[i].2 == floating {
                r.push((v[i].0, v[i].1));
            }
            i += 1;
        }
        assert(v@.subrange(0, v@.len() as int) =~= v@);
        r
    }

    /// The surfaces of the windows shown, bottom to top, with their
    /// positions.
    pub fn _stacked_toplevel_surfaces(&self) -> (r: Vec<(u64, Point)>)
        requires
            self.wf(),
        ensures
            r@ == visible_in(self.spec_order(), self.spec_windows(), self.active_ws(), self.spec_order().len() as int).map_values(
                |e: (u64, Point, bool)| (e.0, e.1),
            ),
    {
        let v = self.visible_toplevel_surfaces();
        let mut r: Vec<(u64, Point)> = Vec::new();
        let mut i: usize = 0;
        while i < v.len()
            invariant
                i <= v@.len(),
                r@ == v@.subrange(0, i as int).map_values(|e: (u64, Point, bool)| (e.0, e.1)),
            decreases v.len() - i,
        {
            let (s, p, _) = v[i];
            r.push((s, p));
            i += 1;
            assert(r@ =~= v@.subrange(0, i as int).map_values(|e: (u64, Point, bool)| (e.0, e.1)));
        }
        assert(v@.subrange(0, v@.len() as int) =~= v@);
        r
    }

    /// The visible windows that are tiled, bottom to top.
    pub fn tiled_surfaces(&self) -> (r: Vec<(u64, Point)>)
        requires
            self.wf(),
        ensures
            r@ == surfaces_floating(
                visible_in(self.spec_order(), self.spec_windows(), self.active_ws(), self.spec_order().len() as int),
                false,
            ),
    {
        self.surfaces_with(false)
    }

    /// The visible windows that float, bottom to top.
    pub fn floating_surfaces(&self) -> (r: Vec<(u64, Point)>)
        requires
            self.wf(),
        ensures
            r@ == surfaces_floating(
                visible_in(self.spec_order(), self.spec_windows(), self.active_ws(), self.spec_order().len() as int),
                true,
            ),
    {
        self.surfaces_with(true)
    }
}

proof fn lemma_first_on_stable(order: Seq<WindowId>, ws: Seq<(WindowId, WindowData)>, active: u32, i: int, n: int)
    requires
        0 <= i <= n,
        first_on(order, ws, active, i) is Some,
    ensures
        first_on(order, ws, active, n) == first_on(order, ws, active, i),
    decreases n - i,
{
    if n > i {
        lemma_first_on_stable(order, ws, active, i, n - 1);
    }
}

proof fn lemma_closest_is_candidate(
    ws: Seq<(WindowId, WindowData)>,
    n: int,
    focused: Option<WindowId>,
    active: u32,
    dir: Direction,
    from: (int, int),
)
    requires
        0 <= n <= ws.len(),
    ensures
        match closest_candidate(ws, n, focused, active, dir, from) {
            Some((id, _)) => has_key(ws, id),
            None => true,
        },
    decreases n,
{
    if n > 0 {
        lemma_closest_is_candidate(ws, n - 1, focused, active, dir, from);
        let (id, d) = ws[n - 1];
        assert(ws[n - 1].0 == id);
    }
}

/// What `update_window_metadata` leaves behind, with `changed` its answer.
pub open spec fn metadata_updated(before: State, after: State, surface: u64, title: Option<String>, app_id: Option<String>, changed: bool) -> bool {
    let w = surface_lookup(before.spec_surfaces(), surface);
    let present = w is Some && has_key(before.spec_windows(), w.unwrap());
    let d = data_of(before.spec_windows(), w.unwrap());
    let new_title = match title {
        Some(t) => t@ != d.title@,
        None => false,
    };
    let new_app = match app_id {
        Some(a) => a@ != d.app_id@,
        None => false,
    };
    &&& changed == (present && (new_title || new_app))
    &&& !changed ==> after == before
    &&& changed ==> {
        let d2 = data_of(after.spec_windows(), w.unwrap());
        &&& after.spec_windows() == before.spec_windows().update(
            key_index(before.spec_windows(), w.unwrap()),
            (w.unwrap(), d2),
        )
        &&& d2 == with_names(d, d2.title, d2.app_id)
        &&& d2.title@ == (if new_title { title.unwrap()@ } else { d.title@ })
        &&& d2.app_id@ == (if new_app { app_id.unwrap()@ } else { d.app_id@ })
        &&& after.spec_effects() == before.spec_effects().push(
            Effect::ForeignToplevelMetadata { window: w.unwrap() },
        )
        &&& after.spec_surfaces() == before.spec_surfaces()
        &&& after.spec_order() == before.spec_order()
        &&& same_places(before, after)
        &&& same_focus(before, after)
        &&& same_redraw(before, after)
    }
}

impl State {
    /// Records whether the client still holds window `id`.
    pub fn set_window_alive(&mut self, id: WindowId, alive: bool)
        requires
            old(self).wf(),
        ensures
            final(self).wf(),
            !has_key(old(self).spec_windows(), id) ==> *final(self) == *old(self),
            has_key(old(self).spec_windows(), id) ==> entry_replaced(*old(self), *final(self), id, WindowData {
                alive,
                ..data_of(old(self).spec_windows(), id)
            }),
    {
        let k = match self.find_window(id) {
            Some(k) => k,
            None => {
                return;
            },
        };
        let ghost a = *self;
        let mut d = self.take_entry(k);
        d.alive = alive;
        self.replace_entry(k, d);
        assert(self.windows@ =~= a.spec_windows().update(k as int, (id, WindowData { alive, ..data_of(a.spec_windows(), id) })));
    }

    /// Removes the windows whose client let them go, one after the other in
    /// table order.
    pub fn prune_windows(&mut self)
        requires
            old(self).wf(),
        ensures
            final(self).wf(),
            exists|steps: Seq<State>| #[trigger] removal_chain(steps, dead_keys(old(self).spec_windows()), *old(self), *final(self)),
    {
        let mut dead: Vec<WindowId> = Vec::new();
        let mut i: usize = 0;
        while i < self.windows.len()
            invariant
                i <= self.windows@.len(),
                dead@ == dead_keys(self.windows@.subrange(0, i as int)),
            decreases self.windows.len() - i,
        {
            assert(self.windows@.subrange(0, i + 1).drop_last() =~= self.windows@.subrange(0, i as int));
            if !self.windows[i].1.alive {
                dead.push(self.windows[i].0);
            }
            i += 1;
        }
        assert(self.windows@.subrange(0, self.windows@.len() as int) =~= self.windows@);
        let ghost mut steps: Seq<State> = seq![*self];
        let mut j: usize = 0;
        while j < dead.len()
            invariant
                j <= dead@.len(),
                self.wf(),
                steps.len() == j + 1,
                steps[0] == *old(self),
                steps.last() == *self,
                dead@ == dead_keys(old(self).spec_windows()),
                forall|t: int| 0 <= t < j ==> #[trigger] window_removed(steps[t], steps[t + 1], dead@[t]),
            decreases dead.len() - j,
        {
            let ghost before = *self;
            self.remove_window(dead[j]);
            proof {
                let old_steps = steps;
                steps = steps.push(*self);
                assert forall|t: int| 0 <= t < j + 1 implies #[trigger] window_removed(steps[t], steps[t + 1], dead@[t]) by {
                    if t < j {
                        assert(steps[t] == old_steps[t] && steps[t + 1] == old_steps[t + 1]);
                    } else {
                        assert(steps[t] == before);
                    }
                }
            }
            j += 1;
        }
        assert(removal_chain(steps, dead_keys(old(self).spec_windows()), *old(self), *self));
    }

    /// The windows to draw, bottom to top: the keys of the stacking order
    /// that are in the table.
    pub fn windows_for_render(&self) -> (r: Vec<WindowId>)
        requires
            self.wf(),
        ensures
            r@ == rendered_keys(self.spec_order(), self.spec_windows()),
    {
        let mut r: Vec<WindowId> = Vec::new();
        let mut i: usize = 0;
        while i < self.window_order.len()
            invariant
                i <= self.window_order@.len(),
                keys_distinct(self.windows@),
                r@ == rendered_keys(self.window_order@.subrange(0, i as int), self.windows@),
            decreases self.window_order.len() - i,
        {
            assert(self.window_order@.subrange(0, i + 1).drop_last() =~= self.window_order@.subrange(0, i as int));
            let id = self.window_order[i];
            if self.find_window(id).is_some() {
                r.push(id);
            }
            i += 1;
        }
        assert(self.window_order@.subrange(0, self.window_order@.len() as int) =~= self.window_order@);
        r
    }

    /// Records what the layout works with: the area left for tiling once the
    /// layer surfaces took their zones, and the master column's extent.
    pub fn set_layout_inputs(&mut self, tiling_area: Rect, master_extent: i32)
        ensures
            final(self).spec_tiling_area() == tiling_area,
            final(self).spec_master_extent() == master_extent,
            final(self).spec_workspaces() == old(self).spec_workspaces(),
            final(self).spec_outputs() == old(self).spec_outputs(),
            final(self).spec_layout() == old(self).spec_layout(),
            final(self).spec_output_size() == old(self).spec_output_size(),
            final(self).spec_floating_geometry() == old(self).spec_floating_geometry(),
            final(self).spec_output_manager() == old(self).spec_output_manager(),
            final(self).spec_output_id() == old(self).spec_output_id(),
            final(self).spec_next_id() == old(self).spec_next_id(),
            same_windows(*old(self), *final(self)),
            same_focus(*old(self), *final(self)),
            same_redraw(*old(self), *final(self)),
            final(self).spec_effects() == old(self).spec_effects(),
            final(self).wf() == old(self).wf(),
    {
        self.tiling_area = tiling_area;
        self.master_extent = master_extent;
    }

    /// Records the output's logical size and the geometry a window takes when
    /// it starts to float on it.
    pub fn set_output_size(&mut self, size: Size, floating_geometry: Rect)
        ensures
            final(self).spec_output_size() == size,
            final(self).spec_floating_geometry() == floating_geometry,
            final(self).spec_workspaces() == old(self).spec_workspaces(),
            final(self).spec_outputs() == old(self).spec_outputs(),
            final(self).spec_layout() == old(self).spec_layout(),
            final(self).spec_tiling_area() == old(self).spec_tiling_area(),
            final(self).spec_master_extent() == old(self).spec_master_extent(),
            final(self).spec_output_manager() == old(self).spec_output_manager(),
            final(self).spec_output_id() == old(self).spec_output_id(),
            final(self).spec_next_id() == old(self).spec_next_id(),
            same_windows(*old(self), *final(self)),
            same_focus(*old(self), *final(self)),
            same_redraw(*old(self), *final(self)),
            final(self).spec_effects() == old(self).spec_effects(),
            final(self).wf() == old(self).wf(),
    {
        self.output_size = size;
        self.floating_geometry = floating_geometry;
    }

    /// Asks for a redraw without adding damage.
    pub fn request_redraw(&mut self)
        ensures
            final(self).spec_needs_redraw(),
            final(self).spec_damage() == old(self).spec_damage(),
            same_places(*old(self), *final(self)),
            same_windows(*old(self), *final(self)),
            same_focus(*old(self), *final(self)),
            final(self).spec_effects() == old(self).spec_effects(),
            final(self).wf() == old(self).wf(),
    {
        self.needs_redraw = true;
    }

    /// Takes the title and app id a surface committed: for the window of that
    /// surface, each given value that differs replaces the old one, and when
    /// one did the new names are passed to its foreign-toplevel handle.
    /// Answers whether anything changed.
    pub fn update_window_metadata(&mut self, surface: u64, title: Option<String>, app_id: Option<String>) -> (changed: bool)
        requires
            old(self).wf(),
        ensures
            final(self).wf(),
            metadata_updated(*old(self), *final(self), surface, title, app_id, changed),
    {
        let ghost a = *self;
        let id = match self.window_for_surface(surface) {
            Some(id) => id,
            None => {
                return false;
            },
        };
        let k = match self.find_window(id) {
            Some(k) => k,
            None => {
                return false;
            },
        };
        let new_title = match &title {
            Some(t) => *t != self.windows[k].1.title,
            None => false,
        };
        let new_app = match &app_id {
            Some(i) => *i != self.windows[k].1.app_id,
            None => false,
        };
        if !(new_title || new_app) {
            return false;
        }
        let mut d = self.take_entry(k);
        if new_title {
            d.title = title.unwrap();
        }
        if new_app {
            d.app_id = app_id.unwrap();
        }
        let ghost d2 = d;
        self.replace_entry(k, d);
        self.effects.push(Effect::ForeignToplevelMetadata { window: id });
        proof {
            let ws = self.windows@;
            assert(ws[k as int].0 == id);
            let kk = key_index(ws, id);
            if kk != k {
                if kk < k {
                    assert(ws[kk].0 != ws[k as int].0);
                } else {
                    assert(ws[k as int].0 != ws[kk].0);
                }
            }
            assert(data_of(ws, id) == d2);
            assert(ws =~= a.spec_windows().update(key_index(a.spec_windows(), id), (id, d2)));
        }
        true
    }
}

/// `steps` leads from `a` to `b` by removing the windows `dead` in turn.
pub open spec fn removal_chain(steps: Seq<State>, dead: Seq<WindowId>, a: State, b: State) -> bool {
    &&& steps.len() == dead.len() + 1
    &&& steps[0] == a
    &&& steps.last() == b
    &&& forall|i: int| 0 <= i < dead.len() ==> #[trigger] window_removed(steps[i], steps[i + 1], dead[i])
}

/// The keys of `order` that are in the table `ws`, in order.
pub open spec fn rendered_keys(order: Seq<WindowId>, ws: Seq<(WindowId, WindowData)>) -> Seq<WindowId>
    decreases order.len(),
{
    if order.len() == 0 {
        Seq::empty()
    } else {
        let before = rendered_keys(order.drop_last(), ws);
        if has_key(ws, order.last()) {
            before.push(order.last())
        } else {
            before
        }
    }
}

impl State {
    fn name_window(&mut self, id: WindowId, title: String, app_id: String)
        requires
            old(self).wf(),
        ensures
            final(self).wf(),
            named_window(*old(self), *final(self), id, title@, app_id@),
    {
        let k = match self.find_window(id) {
            Some(k) => k,
            None => {
                return;
            },
        };
        let ghost a = *self;
        let mut d = self.take_entry(k);
        d.title = title;
        d.app_id = app_id;
        let ghost d2 = d;
        self.replace_entry(k, d);
        self.effects.push(Effect::ForeignToplevelMetadata { window: id });
        proof {
            let ws = self.windows@;
            assert(ws[k as int].0 == id);
            let kk = key_index(ws, id);
            if kk != k {
                if kk < k {
                    assert(ws[kk].0 != ws[k as int].0);
                } else {
                    assert(ws[k as int].0 != ws[kk].0);
                }
            }
            assert(data_of(ws, id) == d2);
            let d0 = data_of(a.spec_windows(), id);
            assert(key_index(a.spec_windows(), id) == k);
            assert(d2 == with_names(d0, d2.title, d2.app_id));
            assert(self.windows@ == a.spec_windows().update(k as int, (id, d2)));
            assert(same_places(a, *self));
            assert(same_focus(a, *self));
            assert(same_redraw(a, *self));
            assert(self.effects@ == a.spec_effects().push(Effect::ForeignToplevelMetadata { window: id }));
        }
    }

    fn set_rule_flags(&mut self, id: WindowId, float: bool, pin: bool)
        requires
            old(self).wf(),
        ensures
            final(self).wf(),
            rule_flags_set(*old(self), *final(self), id, float, pin),
    {
        let k = match self.find_window(id) {
            Some(k) => k,
            None => {
                return;
            },
        };
        let ghost a = *self;
        let mut d = self.take_entry(k);
        if float {
            d.flags.floating = true;
            d.geometry = self.floating_geometry;
        }
        if pin {
            d.flags.pinned = true;
        }
        let ghost d2 = d;
        self.replace_entry(k, d);
        proof {
            let d0 = data_of(a.spec_windows(), id);
            let f1 = if float { WindowFlags { floating: true, ..d0.flags } } else { d0.flags };
            let f2 = if pin { WindowFlags { pinned: true, ..f1 } } else { f1 };
            let g = if float { a.spec_floating_geometry() } else { d0.geometry };
            assert(key_index(a.spec_windows(), id) == k);
            assert(d2 == with_geometry(with_flags(d0, f2), g));
            assert(self.windows@ == a.spec_windows().update(k as int, (id, d2)));
            assert(entry_replaced(a, *self, id, with_geometry(with_flags(d0, f2), g)));
        }
    }

    /// Takes in a new xdg toplevel window on `surface` with the title and app
    /// id it has so far: it is added (see `add_window`), named (missing names
    /// are empty), and the first window rule that applies to those names
    /// sends it to its workspace, makes it float and pins it, as the rule
    /// says. A redraw is asked for. Returns its key and the size for its
    /// first configure.
    pub fn new_toplevel(&mut self, surface: u64, title: Option<String>, app_id: Option<String>, rules: &[WindowRule]) -> (r: (WindowId, Size))
        requires
            old(self).wf(),
        ensures
            final(self).wf(),
            toplevel_created(*old(self), *final(self), r.0, r.1, surface, opt_chars(title), opt_chars(app_id), rules@),
    {
        let ghost t0 = opt_chars(title);
        let ghost i0 = opt_chars(app_id);
        let title_str = match title {
            Some(t) => t,
            None => String::new(),
        };
        let app_str = match app_id {
            Some(a) => a,
            None => String::new(),
        };
        let matched = match_window_rules(rules, app_str.as_str(), title_str.as_str());
        let id = self.add_window(surface);
        let ghost s1 = *self;
        self.name_window(id, title_str, app_str);
        let ghost s2 = *self;
        let (ws, float, pin) = match matched {
            Some((w, f, p)) => (w, f, p),
            None => (None, None, None),
        };
        match ws {
            Some(w) => {
                if 1 <= w && w <= WORKSPACE_COUNT {
                    self.move_window_to_workspace(id, w);
                }
            },
            None => {},
        }
        let ghost s3 = *self;
        let f = match float {
            Some(true) => true,
            _ => false,
        };
        let p = match pin {
            Some(true) => true,
            _ => false,
        };
        self.set_rule_flags(id, f, p);
        let ghost s4 = *self;
        let size = match self.find_window(id) {
            Some(k) => self.windows[k].1.geometry.size,
            None => Size::new(0, 0),
        };
        self.mark_redraw();
        proof {
            assert(window_added(*old(self), s1, id, surface, true, Rect::spec_from_size(0, 0)));
            assert(named_window(s1, s2, id, title_str@, app_str@));
            assert(rule_flags_set(s3, s4, id, f, p));
            let t = t0;
            let i = i0;
            assert(t == title_str@);
            assert(i == app_str@);
            let m = first_rule(rules@, i, t, rules@.len() as int);
            assert(m == matched);
            assert(f == rule_floats(m));
            assert(p == rule_pins(m));
            assert(match rule_workspace(m) {
                Some(w) => workspace_move_done(s2, s3, id, w),
                None => s3 == s2,
            });
            assert(redrawn(s4, *self));
            assert(size == (if has_key(s4.spec_windows(), id) {
                data_of(s4.spec_windows(), id).geometry.size
            } else {
                Size { w: 0, h: 0 }
            }));
            assert(toplevel_created(*old(self), *self, id, size, surface, t, i, rules@));
        }
        (id, size)
    }
}

/// `info` is what IPC tells of one of the first `n` entries of `ws`.
pub open spec fn holds_info(ws: Seq<(WindowId, WindowData)>, n: int, info: WindowInfo) -> bool {
    exists|k: int| 0 <= k < n && (#[trigger] ws[k]).0 == info.id && info == info_of(ws[k].0, ws[k].1)
}

/// The window ids of `r` increase strictly.
pub open spec fn ids_increasing(r: Seq<WindowInfo>) -> bool {
    forall|i: int, j: int| 0 <= i < j < r.len() ==> (#[trigger] r[i]).id.0 < (#[trigger] r[j]).id.0
}

/// `r` tells of every window of `ws`, by key in increasing order.
pub open spec fn infos_by_key(ws: Seq<(WindowId, WindowData)>, r: Seq<WindowInfo>) -> bool {
    &&& r.len() == ws.len()
    &&& ids_increasing(r)
    &&& forall|i: int| 0 <= i < r.len() ==> has_key(ws, (#[trigger] r[i]).id) && r[i] == info_of(r[i].id, data_of(ws, r[i].id))
}

/// `d` with opacity bits `bits`.
pub open spec fn with_opacity(d: WindowData, bits: u32) -> WindowData {
    WindowData { opacity_bits: bits, ..d }
}

/// `d` with its resize delta grown by `(dw, dh)`, wrapping.
pub open spec fn resized_by(d: WindowData, dw: i32, dh: i32) -> WindowData {
    WindowData {
        resize_delta: (d.resize_delta.0.wrapping_add(dw), d.resize_delta.1.wrapping_add(dh)),
        ..d
    }
}

/// `b` is `a` with the entry of window `id` replaced by `d` and the layout
/// redone; an unknown `id` changes nothing.
pub open spec fn entry_relaid(a: State, b: State, id: WindowId, d: WindowData) -> bool {
    &&& !has_key(a.spec_windows(), id) ==> b == a
    &&& has_key(a.spec_windows(), id) ==> exists|m: State| #![trigger laid_out_state(m, b)]
        m.wf() && entry_replaced(a, m, id, d) && laid_out_state(m, b)
}

impl State {
    fn info_for(key: WindowId, d: &WindowData) -> (r: WindowInfo)
        ensures
            r == info_of(key, *d),
    {
        WindowInfo {
            id: key,
            title: d.title.clone(),
            app_id: d.app_id.clone(),
            workspace: d.workspace,
            floating: d.flags.floating,
            fullscreen: d.flags.fullscreen,
            opacity_bits: d.opacity_bits,
            pinned: d.flags.pinned,
            urgent: d.flags.urgent,
        }
    }

    /// What IPC tells of every window, by key in increasing order.
    pub fn window_infos(&self) -> (r: Vec<WindowInfo>)
        requires
            self.wf(),
        ensures
            infos_by_key(self.spec_windows(), r@),
    {
        let mut r: Vec<WindowInfo> = Vec::new();
        let mut i: usize = 0;
        while i < self.windows.len()
            invariant
                i <= self.windows@.len(),
                keys_distinct(self.windows@),
                r@.len() == i,
                ids_increasing(r@),
                forall|t: int| 0 <= t < r@.len() ==> holds_info(self.windows@, i as int, #[trigger] r@[t]),
            decreases self.windows.len() - i,
        {
            let key = self.windows[i].0;
            let info = Self::info_for(key, &self.windows[i].1);
            let mut p: usize = 0;
            while p < r.len() && r[p].id.0 < key.0
                invariant
                    p <= r@.len(),
                    forall|t: int| 0 <= t < p ==> (#[trigger] r@[t]).id.0 < key.0,
                decreases r.len() - p,
            {
                p += 1;
            }
            proof {
                assert forall|t: int| p <= t < r@.len() implies (#[trigger] r@[t]).id.0 > key.0 by {
                    assert(holds_info(self.windows@, i as int, r@[t]));
                    let k = choose|k: int| 0 <= k < i && (#[trigger] self.windows@[k]).0 == r@[t].id && r@[t] == info_of(self.windows@[k].0, self.windows@[k].1);
                    assert(self.windows@[k].0 != self.windows@[i as int].0);
                    if t > p {
                        assert(r@[p as int].id.0 < r@[t].id.0);
                    }
                }
            }
            let ghost before = r@;
            r.insert(p, info);
            proof {
                assert(self.windows@[i as int].0 == key);
                assert(holds_info(self.windows@, i + 1, info));
                assert forall|t: int| 0 <= t < r@.len() implies holds_info(self.windows@, i + 1, #[trigger] r@[t]) by {
                    if t < p {
                        assert(r@[t] == before[t]);
                        assert(holds_info(self.windows@, i as int, before[t]));
                    } else if t > p {
                        assert(r@[t] == before[t - 1]);
                        assert(holds_info(self.windows@, i as int, before[t - 1]));
                    }
                }
                assert forall|a: int, b: int| 0 <= a < b < r@.len() implies (#[trigger] r@[a]).id.0 < (#[trigger] r@[b]).id.0 by {
                    if b < p {
                        assert(r@[a] == before[a] && r@[b] == before[b]);
                    } else if b == p {
                        assert(r@[a] == before[a]);
                    } else if a < p {
                        assert(r@[a] == before[a] && r@[b] == before[b - 1]);
                    } else if a == p {
                        assert(r@[b] == before[b - 1]);
                    } else {
                        assert(r@[a] == before[a - 1] && r@[b] == before[b - 1]);
                    }
                }
            }
            i += 1;
        }
        proof {
            let ws = self.windows@;
            assert forall|t: int| 0 <= t < r@.len() implies has_key(ws, (#[trigger] r@[t]).id) && r@[t] == info_of(r@[t].id, data_of(ws, r@[t].id)) by {
                assert(holds_info(ws, ws.len() as int, r@[t]));
                let k = choose|k: int| 0 <= k < ws.len() && (#[trigger] ws[k]).0 == r@[t].id && r@[t] == info_of(ws[k].0, ws[k].1);
                assert(has_key(ws, r@[t].id));
                let q = key_index(ws, r@[t].id);
                if q != k {
                    if q < k {
                        assert(ws[q].0 != ws[k].0);
                    } else {
                        assert(ws[k].0 != ws[q].0);
                    }
                }
            }
        }
        r
    }

    /// The window whose surface has the keyboard focus.
    pub fn focused_window_id(&self) -> (r: Option<WindowId>)
        ensures
            r == focused_window(*self),
    {
        match self.focused_surface {
            Some(s) => self.window_for_surface(s),
            None => None,
        }
    }

    /// What IPC tells of the window with the keyboard focus: its own
    /// identity as its data records it.
    pub fn active_window_info(&self) -> (r: Option<WindowInfo>)
        requires
            self.wf(),
        ensures
            r == (match focused_window(*self) {
                Some(id) => if has_key(self.spec_windows(), id) {
                    Some(info_of(data_of(self.spec_windows(), id).id, data_of(self.spec_windows(), id)))
                } else {
                    None
                },
                None => None,
            }),
    {
        match self.focused_window_id() {
            Some(id) => match self.find_window(id) {
                Some(k) => {
                    let d = &self.windows[k].1;
                    Some(Self::info_for(d.id, d))
                },
                None => None,
            },
            None => None,
        }
    }

    /// Sets the floating flag of window `id` and redoes the layout; an
    /// unknown `id` changes nothing.
    pub fn set_window_floating(&mut self, id: WindowId, floating: bool)
        requires
            old(self).wf(),
        ensures
            final(self).wf(),
            entry_relaid(*old(self), *final(self), id, {
                let d = data_of(old(self).spec_windows(), id);
                with_flags(d, WindowFlags { floating, ..d.flags })
            }),
    {
        let k = match self.find_window(id) {
            Some(k) => k,
            None => {
                return;
            },
        };
        let ghost a = *self;
        let mut d = self.take_entry(k);
        d.flags.floating = floating;
        self.replace_entry(k, d);
        let ghost m = *self;
        let ghost d0 = data_of(a.spec_windows(), id);
        assert(self.windows@ =~= a.spec_windows().update(k as int, (id, with_flags(d0, WindowFlags { floating, ..d0.flags }))));
        self.apply_layout();
        assert(laid_out_state(m, *self));
    }

    /// Sets the opacity of window `id`, given as the bits of an `f32`, and
    /// asks for a redraw; an unknown `id` changes nothing.
    pub fn set_window_opacity(&mut self, id: WindowId, opacity_bits: u32)
        requires
            old(self).wf(),
        ensures
            final(self).wf(),
            !has_key(old(self).spec_windows(), id) ==> *final(self) == *old(self),
            has_key(old(self).spec_windows(), id) ==> exists|m: State| #![trigger redraw_step(m, *final(self))]
                m.wf() && entry_replaced(*old(self), m, id, with_opacity(data_of(old(self).spec_windows(), id), opacity_bits))
                    && redraw_step(m, *final(self)),
    {
        let k = match self.find_window(id) {
            Some(k) => k,
            None => {
                return;
            },
        };
        let ghost a = *self;
        let mut d = self.take_entry(k);
        d.opacity_bits = opacity_bits;
        self.replace_entry(k, d);
        let ghost m = *self;
        assert(self.windows@ =~= a.spec_windows().update(k as int, (id, with_opacity(data_of(a.spec_windows(), id), opacity_bits))));
        self.mark_redraw();
        assert(redraw_step(m, *self));
    }

    /// Passes the current title and app id of window `id` to its
    /// foreign-toplevel handle; an unknown `id` passes nothing.
    pub fn sync_foreign_toplevel_metadata(&mut self, id: WindowId)
        requires
            old(self).wf(),
        ensures
            final(self).wf(),
            final(self).spec_effects() == (if has_key(old(self).spec_windows(), id) {
                old(self).spec_effects().push(Effect::ForeignToplevelMetadata { window: id })
            } else {
                old(self).spec_effects()
            }),
            same_places(*old(self), *final(self)),
            same_windows(*old(self), *final(self)),
            same_focus(*old(self), *final(self)),
            same_redraw(*old(self), *final(self)),
    {
        if self.find_window(id).is_some() {
            self.effects.push(Effect::ForeignToplevelMetadata { window: id });
        }
    }

    /// The keyboard focus moved to `focused`: the handle of the window it
    /// belongs to gets that window's names again, and a redraw is due.
    pub fn focus_changed(&mut self, focused: Option<u64>)
        requires
            old(self).wf(),
        ensures
            final(self).wf(),
            final(self).spec_effects() == (match focused {
                Some(s) => match surface_lookup(old(self).spec_surfaces(), s) {
                    Some(id) => if has_key(old(self).spec_windows(), id) {
                        old(self).spec_effects().push(Effect::ForeignToplevelMetadata { window: id })
                    } else {
                        old(self).spec_effects()
                    },
                    None => old(self).spec_effects(),
                },
                None => old(self).spec_effects(),
            }),
            redrawn(*old(self), *final(self)),
            same_places(*old(self), *final(self)),
            same_windows(*old(self), *final(self)),
            same_focus(*old(self), *final(self)),
    {
        if let Some(s) = focused {
            if let Some(id) = self.window_for_surface(s) {
                self.sync_foreign_toplevel_metadata(id);
            }
        }
        self.mark_redraw();
    }

    /// An activation request for `surface`, made `elapsed_secs` seconds
    /// after its token was issued. A request older than ten seconds, or one
    /// for the focused surface or a surface of no window, changes nothing;
    /// otherwise the window is marked urgent and a redraw is due.
    pub fn request_activation(&mut self, surface: u64, elapsed_secs: u64)
        requires
            old(self).wf(),
        ensures
            final(self).wf(),
            ({
                let w = surface_lookup(old(self).spec_surfaces(), surface);
                let applies = elapsed_secs <= 10 && w is Some && old(self).spec_focus() != Some(surface)
                    && has_key(old(self).spec_windows(), w.unwrap());
                &&& !applies ==> *final(self) == *old(self)
                &&& applies ==> exists|m: State| #![trigger redraw_step(m, *final(self))]
                    m.wf() && entry_replaced(*old(self), m, w.unwrap(), {
                        let d = data_of(old(self).spec_windows(), w.unwrap());
                        with_flags(d, WindowFlags { urgent: true, ..d.flags })
                    }) && redraw_step(m, *final(self))
            }),
    {
        if elapsed_secs > 10 {
            return;
        }
        let id = match self.window_for_surface(surface) {
            Some(id) => id,
            None => {
                return;
            },
        };
        if self.focused_surface == Some(surface) {
            return;
        }
        let k = match self.find_window(id) {
            Some(k) => k,
            None => {
                return;
            },
        };
        let ghost a = *self;
        let mut d = self.take_entry(k);
        d.flags.urgent = true;
        self.replace_entry(k, d);
        let ghost m = *self;
        assert(self.windows@ =~= a.spec_windows().update(k as int, (id, with_flags(data_of(a.spec_windows(), id), WindowFlags { urgent: true, ..data_of(a.spec_windows(), id).flags }))));
        self.mark_redraw();
        assert(redraw_step(m, *self));
    }

    /// Grows the resize delta of window `id` by `(dw, dh)`, wrapping, and
    /// redoes the layout; an unknown `id` changes nothing.
    pub fn add_resize_delta(&mut self, id: WindowId, dw: i32, dh: i32)
        requires
            old(self).wf(),
        ensures
            final(self).wf(),
            entry_relaid(*old(self), *final(self), id, resized_by(data_of(old(self).spec_windows(), id), dw, dh)),
    {
        let k = match self.find_window(id) {
            Some(k) => k,
            None => {
                return;
            },
        };
        let ghost a = *self;
        let mut d = self.take_entry(k);
        d.resize_delta = (d.resize_delta.0.wrapping_add(dw), d.resize_delta.1.wrapping_add(dh));
        self.replace_entry(k, d);
        let ghost m = *self;
        assert(self.windows@ =~= a.spec_windows().update(k as int, (id, resized_by(data_of(a.spec_windows(), id), dw, dh))));
        self.apply_layout();
        assert(laid_out_state(m, *self));
    }
}

/// What IPC tells of workspace `w` when `active` is shown.
pub open spec fn workspace_info_of(w: Workspace, active: u32) -> WorkspaceInfo {
    WorkspaceInfo { id: w.id, name: w.name, window_count: w.window_set().len() as usize, active: w.id == active }
}

/// What IPC tells of the layout of workspace `w`.
pub open spec fn layout_info_of(w: Workspace, active: u32, e: LayoutEngine) -> WorkspaceLayoutInfo {
    WorkspaceLayoutInfo { workspace: w.id, active: w.id == active, mode: e.layout_for(w.id) }
}

/// `info` tells of output `o`.
pub open spec fn output_info_matches(info: OutputInfo, o: OutputState) -> bool {
    &&& info.id == o.id.0
    &&& info.name == o.name
    &&& info.size == (o.size.w, o.size.h)
    &&& info.position == (o.position.x, o.position.y)
    &&& info.scale_bits == o.scale_bits
    &&& info.enabled == o.enabled
    &&& info.primary == o.primary
    &&& info.active_workspace == o.active_workspace
    &&& info.transform@ == transform_name(o.transform)
}

/// `b` is `a` with workspace `workspace` given layout mode `mode` and the
/// layout redone.
pub open spec fn layout_set(a: State, b: State, workspace: u32, mode: LayoutMode) -> bool {
    exists|m: State| #![trigger laid_out_state(m, b)]
        m.wf() && laid_out_state(m, b) && m.spec_layout().overrides() == a.spec_layout().overrides().insert(workspace, mode)
            && m.spec_layout().spec_mode() == a.spec_layout().spec_mode()
            && m.spec_layout().spec_gaps_inner() == a.spec_layout().spec_gaps_inner()
            && m.spec_layout().spec_gaps_outer() == a.spec_layout().spec_gaps_outer()
            && m.spec_workspaces() == a.spec_workspaces() && m.spec_outputs() == a.spec_outputs()
            && m.spec_output_size() == a.spec_output_size() && m.spec_tiling_area() == a.spec_tiling_area()
            && m.spec_master_extent() == a.spec_master_extent()
            && m.spec_floating_geometry() == a.spec_floating_geometry()
            && m.spec_output_manager() == a.spec_output_manager() && m.spec_output_id() == a.spec_output_id()
            && m.spec_next_id() == a.spec_next_id() && same_windows(a, m) && same_focus(a, m) && same_redraw(a, m)
            && m.spec_effects() == a.spec_effects()
}

impl State {
    /// What IPC tells of the ten workspaces, by number.
    pub fn workspace_infos(&self) -> (r: Vec<WorkspaceInfo>)
        requires
            self.wf(),
        ensures
            r@.len() == WORKSPACE_COUNT,
            forall|i: int| 0 <= i < r@.len() ==> #[trigger] r@[i] == workspace_info_of(self.spec_workspaces().spec_workspaces()[i], self.active_ws()),
    {
        let active = self.active_workspace_id();
        let all = self.workspaces.all();
        let mut r: Vec<WorkspaceInfo> = Vec::new();
        let mut i: usize = 0;
        while i < all.len()
            invariant
                all@ == self.spec_workspaces().spec_workspaces(),
                self.spec_workspaces().wf(),
                active == self.active_ws(),
                i <= all@.len(),
                r@.len() == i,
                forall|t: int| 0 <= t < i ==> #[trigger] r@[t] == workspace_info_of(all@[t], active),
            decreases all.len() - i,
        {
            let w = &all[i];
            assert(w.wf());
            let info = WorkspaceInfo { id: w.id, name: w.name.clone(), window_count: w.window_count(), active: w.id == active };
            r.push(info);
            i += 1;
        }
        r
    }

    /// What IPC tells of the layout of the ten workspaces, by number.
    pub fn layout_infos(&self) -> (r: Vec<WorkspaceLayoutInfo>)
        requires
            self.wf(),
        ensures
            r@.len() == WORKSPACE_COUNT,
            forall|i: int| 0 <= i < r@.len() ==> #[trigger] r@[i] == layout_info_of(self.spec_workspaces().spec_workspaces()[i], self.active_ws(), self.spec_layout()),
    {
        let active = self.active_workspace_id();
        let all = self.workspaces.all();
        let mut r: Vec<WorkspaceLayoutInfo> = Vec::new();
        let mut i: usize = 0;
        while i < all.len()
            invariant
                all@ == self.spec_workspaces().spec_workspaces(),
                self.spec_workspaces().wf(),
                self.spec_layout().wf(),
                active == self.active_ws(),
                i <= all@.len(),
                r@.len() == i,
                forall|t: int| 0 <= t < i ==> #[trigger] r@[t] == layout_info_of(all@[t], active, self.spec_layout()),
            decreases all.len() - i,
        {
            let id = all[i].id;
            let mode = self.layout_engine.get_workspace_layout(id);
            r.push(WorkspaceLayoutInfo { workspace: id, active: id == active, mode });
            i += 1;
        }
        r
    }

    /// What IPC tells of the outputs, sorted top to bottom, then left to
    /// right.
    pub fn output_infos(&self) -> (r: Vec<OutputInfo>)
        requires
            self.wf(),
        ensures
            r@.len() == self.spec_output_manager().spec_map().spec_outputs().len(),
            forall|i: int| 0 <= i < self.spec_output_manager().spec_map().spec_outputs().len() ==> output_info_matches(
                r@[rank(self.spec_output_manager().spec_map().spec_outputs(), i) as int],
                #[trigger] self.spec_output_manager().spec_map().spec_outputs()[i],
            ),
    {
        let sorted = self.output_manager.map().sorted_outputs();
        let ghost outs = self.spec_output_manager().spec_map().spec_outputs();
        let mut r: Vec<OutputInfo> = Vec::new();
        let mut i: usize = 0;
        while i < sorted.len()
            invariant
                i <= sorted@.len(),
                r@.len() == i,
                forall|t: int| 0 <= t < i ==> output_info_matches(#[trigger] r@[t], *sorted@[t]),
            decreases sorted.len() - i,
        {
            let o = sorted[i];
            r.push(OutputInfo {
                id: o.id.0,
                name: o.name.clone(),
                size: (o.size.w, o.size.h),
                position: (o.position.x, o.position.y),
                scale_bits: o.scale_bits,
                enabled: o.enabled,
                primary: o.primary,
                active_workspace: o.active_workspace,
                transform: o.transform.name(),
            });
            i += 1;
        }
        proof {
            assert forall|i: int| 0 <= i < outs.len() implies output_info_matches(r@[rank(outs, i) as int], #[trigger] outs[i]) by {
                lemma_count_before_bound(outs, i, outs.len() as int);
                assert(*sorted@[rank(outs, i) as int] == outs[i]);
            }
        }
        r
    }

    /// Gives workspace `workspace` the layout mode `mode` and redoes the layout.
    pub fn set_workspace_layout(&mut self, workspace: u32, mode: LayoutMode)
        requires
            old(self).wf(),
        ensures
            final(self).wf(),
            layout_set(*old(self), *final(self), workspace, mode),
    {
        self.layout_engine.set_workspace_layout(workspace, mode);
        let ghost m = *self;
        self.apply_layout();
        assert(laid_out_state(m, *self));
    }
}

/// `m` with every workspace from 1 to `n` given mode `mode`.
pub open spec fn modes_up_to(m: Map<u32, LayoutMode>, mode: LayoutMode, n: u32) -> Map<u32, LayoutMode> {
    m.union_prefer_right(Map::new(|w: u32| 1 <= w <= n, |w: u32| mode))
}

/// `b` is `a` with the gaps set to `inner` and `outer` and every workspace
/// given mode `mode`; nothing else changed.
pub open spec fn layout_configured(a: State, b: State, inner: i32, outer: i32, mode: LayoutMode) -> bool {
    &&& b.spec_layout().spec_gaps_inner() == inner
    &&& b.spec_layout().spec_gaps_outer() == outer
    &&& b.spec_layout().spec_mode() == a.spec_layout().spec_mode()
    &&& b.spec_layout().overrides() == modes_up_to(a.spec_layout().overrides(), mode, WORKSPACE_COUNT)
    &&& b.spec_workspaces() == a.spec_workspaces()
    &&& b.spec_outputs() == a.spec_outputs()
    &&& b.spec_output_size() == a.spec_output_size()
    &&& b.spec_tiling_area() == a.spec_tiling_area()
    &&& b.spec_master_extent() == a.spec_master_extent()
    &&& b.spec_floating_geometry() == a.spec_floating_geometry()
    &&& b.spec_output_manager() == a.spec_output_manager()
    &&& b.spec_output_id() == a.spec_output_id()
    &&& b.spec_next_id() == a.spec_next_id()
    &&& same_windows(a, b)
    &&& same_focus(a, b)
    &&& same_redraw(a, b)
    &&& b.spec_effects() == a.spec_effects()
}

impl State {
    /// Sets the layout gaps and gives all ten workspaces the mode `mode`.
    pub fn configure_layout(&mut self, gaps_inner: i32, gaps_outer: i32, mode: LayoutMode)
        requires
            old(self).wf(),
        ensures
            final(self).wf(),
            layout_configured(*old(self), *final(self), gaps_inner, gaps_outer, mode),
    {
        let ghost a = *self;
        self.layout_engine.set_gaps(gaps_inner, gaps_outer);
        assert(self.layout_engine.overrides() =~= modes_up_to(a.spec_layout().overrides(), mode, 0));
        let mut w: u32 = 1;
        while w <= WORKSPACE_COUNT
            invariant
                1 <= w <= WORKSPACE_COUNT + 1,
                self.layout_engine.wf(),
                self.layout_engine.overrides() == modes_up_to(a.spec_layout().overrides(), mode, (w - 1) as u32),
                self.layout_engine.spec_gaps_inner() == gaps_inner,
                self.layout_engine.spec_gaps_outer() == gaps_outer,
                self.layout_engine.spec_mode() == a.spec_layout().spec_mode(),
                self.windows@ == a.spec_windows(),
                self.surface_to_window@ == a.spec_surfaces(),
                self.window_order@ == a.spec_order(),
                self.focused_surface == a.spec_focus(),
                self.serial_counter == a.spec_serial(),
                self.workspaces == a.spec_workspaces(),
                self.output_workspaces == a.spec_outputs(),
                self.output_size == a.spec_output_size(),
                self.tiling_area == a.spec_tiling_area(),
                self.master_extent == a.spec_master_extent(),
                self.floating_geometry == a.spec_floating_geometry(),
                self.output_manager == a.spec_output_manager(),
                self.output_id == a.spec_output_id(),
                self.needs_redraw == a.spec_needs_redraw(),
                self.damage_tracker == a.spec_damage(),
                self.next_window_id == a.spec_next_id(),
                self.effects@ == a.spec_effects(),
            decreases WORKSPACE_COUNT + 1 - w,
        {
            self.layout_engine.set_workspace_layout(w, mode);
            assert(self.layout_engine.overrides() =~= modes_up_to(a.spec_layout().overrides(), mode, w));
            w += 1;
        }
    }
}

impl State {
    /// The workspace of window `id`, if it is known.
    pub fn window_workspace(&self, id: WindowId) -> (r: Option<u32>)
        requires
            self.wf(),
        ensures
            r == (if has_key(self.spec_windows(), id) {
                Some(data_of(self.spec_windows(), id).workspace)
            } else {
                None
            }),
    {
        match self.find_window(id) {
            Some(k) => Some(self.windows[k].1.workspace),
            None => None,
        }
    }

    /// The stacking order, bottom to top.
    pub fn stacking_order(&self) -> (r: &[WindowId])
        ensures
            r@ == self.spec_order(),
    {
        self.window_order.as_slice()
    }
}

impl State {
    /// The output the compositor renders to, if it has settled on one.
    pub fn output_id(&self) -> (r: Option<OutputId>)
        ensures
            r == self.spec_output_id(),
    {
        self.output_id
    }

    /// The outputs and their pending changes.
    pub fn output_manager(&self) -> (r: &OutputManager)
        ensures
            *r == self.spec_output_manager(),
    {
        &self.output_manager
    }

    /// The logical size of the output.
    pub fn output_size(&self) -> (r: Size)
        ensures
            r == self.spec_output_size(),
    {
        self.output_size
    }
}

/// `b` is `a` with the output change log emptied.
pub open spec fn changes_taken(a: State, b: State) -> bool {
    &&& b.spec_output_manager().spec_map() == a.spec_output_manager().spec_map()
    &&& b.spec_output_manager().spec_changes().len() == 0
    &&& b.spec_workspaces() == a.spec_workspaces()
    &&& b.spec_outputs() == a.spec_outputs()
    &&& b.spec_layout() == a.spec_layout()
    &&& b.spec_output_size() == a.spec_output_size()
    &&& b.spec_tiling_area() == a.spec_tiling_area()
    &&& b.spec_master_extent() == a.spec_master_extent()
    &&& b.spec_floating_geometry() == a.spec_floating_geometry()
    &&& b.spec_output_id() == a.spec_output_id()
    &&& b.spec_next_id() == a.spec_next_id()
    &&& same_windows(a, b)
    &&& same_focus(a, b)
    &&& same_redraw(a, b)
    &&& b.spec_effects() == a.spec_effects()
}

/// `steps` runs from `a` to `b`: the change log taken, then for each of
/// `n` changes the layout redone and a redraw asked for.
pub open spec fn relaid_per_change(steps: Seq<State>, n: nat, a: State, b: State) -> bool {
    &&& steps.len() == 2 * n + 1
    &&& changes_taken(a, steps[0])
    &&& steps.last() == b
    &&& forall|i: int| 0 <= i < n ==> #[trigger] laid_out_state(steps[2 * i], steps[2 * i + 1])
    &&& forall|i: int| 0 <= i < n ==> #[trigger] redraw_step(steps[2 * i + 1], steps[2 * i + 2])
}

/// `b` is `a` after `mark_redraw`.
pub open spec fn redraw_step(a: State, b: State) -> bool {
    &&& redrawn(a, b)
    &&& same_places(a, b)
    &&& same_windows(a, b)
    &&& same_focus(a, b)
    &&& b.spec_effects() == a.spec_effects()
}

impl State {
    /// Takes the logged output changes, oldest first; for each one the
    /// layout is redone and a redraw asked for. Without changes nothing
    /// happens.
    pub fn process_output_changes(&mut self) -> (r: Vec<OutputChange>)
        requires
            old(self).wf(),
        ensures
            final(self).wf(),
            r@ == old(self).spec_output_manager().spec_changes(),
            r@.len() == 0 ==> *final(self) == *old(self),
            r@.len() > 0 ==> exists|steps: Seq<State>| #[trigger] relaid_per_change(steps, r@.len(), *old(self), *final(self)),
    {
        if !self.output_manager.has_changes() {
            return Vec::new();
        }
        let changes = self.output_manager.take_changes();
        let ghost mut steps: Seq<State> = seq![*self];
        let mut i: usize = 0;
        while i < changes.len()
            invariant
                i <= changes@.len(),
                self.wf(),
                steps.len() == 2 * i + 1,
                changes_taken(*old(self), steps[0]),
                steps.last() == *self,
                forall|k: int| 0 <= k < i ==> #[trigger] laid_out_state(steps[2 * k], steps[2 * k + 1]),
                forall|k: int| 0 <= k < i ==> #[trigger] redraw_step(steps[2 * k + 1], steps[2 * k + 2]),
            decreases changes.len() - i,
        {
            let ghost before = steps;
            self.apply_layout();
            let ghost mid = *self;
            self.mark_redraw();
            proof {
                steps = steps.push(mid).push(*self);
                assert forall|k: int| 0 <= k < i + 1 implies #[trigger] laid_out_state(steps[2 * k], steps[2 * k + 1]) by {
                    if k < i {
                        assert(steps[2 * k] == before[2 * k] && steps[2 * k + 1] == before[2 * k + 1]);
                    }
                }
                assert(redraw_step(mid, *self));
                assert forall|k: int| 0 <= k < i + 1 implies #[trigger] redraw_step(steps[2 * k + 1], steps[2 * k + 2]) by {
                    if k < i {
                        assert(steps[2 * k + 1] == before[2 * k + 1] && steps[2 * k + 2] == before[2 * k + 2]);
                    }
                }
            }
            i += 1;
        }
        assert(relaid_per_change(steps, changes@.len(), *old(self), *self));
        changes
    }
}

impl State {
    /// The workspaces of the focused output.
    pub fn focused_workspace_set(&self) -> (r: &WorkspaceSet)
        ensures
            *r == self.spec_workspaces(),
    {
        &self.workspaces
    }

    /// The workspace set the windows are placed in.
    pub fn workspaces(&self) -> (r: &WorkspaceSet)
        ensures
            *r == self.spec_workspaces(),
    {
        &self.workspaces
    }
}

/// Law: once a valid workspace is switched to, it is the one shown, as long
/// as the focused (else primary) output is known.
pub proof fn lemma_switch_shows_workspace(a: State, b: State, id: u32)
    requires
        a.wf(),
        valid_workspace(id),
        switch_workspace_post(a, b, id),
        target_output(a.spec_outputs()) is Some,
        a.spec_outputs().has(target_output(a.spec_outputs()).unwrap()),
    ensures
        b.active_ws() == id,
{
    let (m1, m2, m3) = choose|m1: State, m2: State, m3: State|
        #![trigger refocused(m1, m2), laid_out_state(m2, m3)]
        m1.wf() && m2.wf() && m3.wf() && switched_to(a, m1, id) && refocused(m1, m2) && laid_out_state(m2, m3)
            && emitted(m3, b, IpcEvent::WorkspaceChanged { workspace: id });
    let o = a.spec_outputs();
    let o2 = m1.spec_outputs();
    let oid = target_output(o).unwrap();
    let k = o.index_of(oid);
    assert(o2.spec_entries()[k].0 == oid);
    assert(o2.has(oid));
    let k2 = o2.index_of(oid);
    assert(o2.spec_entries()[k2].0 == oid);
    assert(k2 == k) by {
        if k2 != k {
            assert(m1.spec_outputs().wf());
            assert(o2.spec_entries()[k2].0 != o2.spec_entries()[k].0);
        }
    }
    assert(m1.active_ws() == id);
    assert(m2.spec_outputs() == m1.spec_outputs());
}

/// Law: once a layout mode is given to a workspace, that workspace is laid
/// out in that mode.
pub proof fn lemma_layout_reads_back(a: State, b: State, workspace: u32, mode: LayoutMode)
    requires
        layout_set(a, b, workspace, mode),
    ensures
        b.spec_layout().layout_for(workspace) == mode,
{
}

/// Law: a window that was given the focus is the focused window, when the
/// surface index leads from its surface back to it.
pub proof fn lemma_focus_reads_back(a: State, b: State, id: WindowId)
    requires
        has_key(a.spec_windows(), id),
        focus_window_post(a, b, id),
        surface_lookup(a.spec_surfaces(), data_of(a.spec_windows(), id).surface) == Some(id),
    ensures
        focused_window(b) == Some(id),
{
}

/// In a table whose keys are distinct, the entry with key `id` is found
/// where it stands.
proof fn lemma_key_index_at(ws: Seq<(WindowId, WindowData)>, id: WindowId, k: int)
    requires
        keys_distinct(ws),
        0 <= k < ws.len(),
        ws[k].0 == id,
    ensures
        has_key(ws, id),
        key_index(ws, id) == k,
{
    assert(has_key(ws, id));
    let j = key_index(ws, id);
    if j != k {
        if j < k {
            assert(ws[j].0 != ws[k].0);
        } else {
            assert(ws[k].0 != ws[j].0);
        }
    }
}

/// Law: pinning a window twice gives back the window table it started from.
pub proof fn lemma_pinned_twice(a: State, b: State, c: State, id: WindowId)
    requires
        a.wf(),
        toggle_pinned_post(a, b, id),
        toggle_pinned_post(b, c, id),
    ensures
        c.spec_windows() == a.spec_windows(),
{
    if has_key(a.spec_windows(), id) {
        let k = key_index(a.spec_windows(), id);
        let ws = a.spec_windows();
        let d = data_of(ws, id);
        let bw = b.spec_windows();
        assert(bw[k].0 == id);
        assert(keys_distinct(bw)) by {
            assert forall|i: int, j: int| 0 <= i < j < bw.len() implies (#[trigger] bw[i]).0 != (#[trigger] bw[j]).0 by {
                assert(bw[i].0 == ws[i].0);
                assert(bw[j].0 == ws[j].0);
            }
        }
        lemma_key_index_at(bw, id, k);
        assert(c.spec_windows() =~= ws);
    }
}

/// The flags of the window with key `id` in `a`.
pub open spec fn flags_of(a: State, id: WindowId) -> WindowFlags {
    data_of(a.spec_windows(), id).flags
}

/// Laying out keeps the keys, the flags and the workspace of every window.
proof fn lemma_layout_keeps_flags(m: State, b: State, id: WindowId)
    requires
        m.wf(),
        laid_out_state(m, b),
        has_key(m.spec_windows(), id),
    ensures
        b.spec_windows().len() == m.spec_windows().len(),
        forall|i: int| 0 <= i < m.spec_windows().len() ==> (#[trigger] b.spec_windows()[i]).0 == m.spec_windows()[i].0,
        keys_distinct(b.spec_windows()),
        has_key(b.spec_windows(), id),
        key_index(b.spec_windows(), id) == key_index(m.spec_windows(), id),
        flags_of(b, id) == flags_of(m, id),
        data_of(b.spec_windows(), id).workspace == data_of(m.spec_windows(), id).workspace,
{
    let mw = m.spec_windows();
    let bw = b.spec_windows();
    assert forall|i: int| 0 <= i < mw.len() implies (#[trigger] bw[i]).0 == mw[i].0 by {}
    assert(keys_distinct(bw)) by {
        assert forall|i: int, j: int| 0 <= i < j < bw.len() implies (#[trigger] bw[i]).0 != (#[trigger] bw[j]).0 by {
            assert(bw[i].0 == mw[i].0);
            assert(bw[j].0 == mw[j].0);
        }
    }
    let k = key_index(mw, id);
    assert(bw[k].0 == id);
    lemma_key_index_at(bw, id, k);
}

/// Law: toggling the floating flag of a window twice gives back the flags it
/// had; its geometry may differ, as the layout places it again.
pub proof fn lemma_floating_twice(a: State, b: State, c: State, id: WindowId)
    requires
        a.wf(),
        b.wf(),
        toggle_floating_post(a, b, id),
        toggle_floating_post(b, c, id),
    ensures
        flags_of(c, id) == flags_of(a, id),
{
    if has_key(a.spec_windows(), id) {
        let m = choose|m: State| #![trigger laid_out_state(m, b)]
            m.wf() && entry_replaced(a, m, id, floating_toggled(data_of(a.spec_windows(), id), a.spec_floating_geometry()))
                && laid_out_state(m, b);
        let k = key_index(a.spec_windows(), id);
        assert(m.spec_windows()[k].0 == id);
        lemma_key_index_at(m.spec_windows(), id, k);
        lemma_layout_keeps_flags(m, b, id);
        let m2 = choose|m2: State| #![trigger laid_out_state(m2, c)]
            m2.wf() && entry_replaced(b, m2, id, floating_toggled(data_of(b.spec_windows(), id), b.spec_floating_geometry()))
                && laid_out_state(m2, c);
        assert(m2.spec_windows()[k].0 == id);
        lemma_key_index_at(m2.spec_windows(), id, k);
        lemma_layout_keeps_flags(m2, c, id);
    }
}

/// Law: toggling fullscreen on a window twice gives back the flags it had;
/// its geometry may differ, as the layout places it again.
pub proof fn lemma_fullscreen_twice(a: State, b: State, c: State, id: WindowId)
    requires
        a.wf(),
        b.wf(),
        toggle_fullscreen_post(a, b, id),
        toggle_fullscreen_post(b, c, id),
    ensures
        flags_of(c, id) == flags_of(a, id),
{
    if has_key(a.spec_windows(), id) {
        let m = choose|m: State| #![trigger laid_out_state(m, b)]
            m.wf() && entry_replaced(a, m, id, fullscreen_toggled(data_of(a.spec_windows(), id), a.spec_output_size()))
                && laid_out_state(m, b);
        let k = key_index(a.spec_windows(), id);
        assert(m.spec_windows()[k].0 == id);
        lemma_key_index_at(m.spec_windows(), id, k);
        lemma_layout_keeps_flags(m, b, id);
        let m2 = choose|m2: State| #![trigger laid_out_state(m2, c)]
            m2.wf() && entry_replaced(b, m2, id, fullscreen_toggled(data_of(b.spec_windows(), id), b.spec_output_size()))
                && laid_out_state(m2, c);
        assert(m2.spec_windows()[k].0 == id);
        lemma_key_index_at(m2.spec_windows(), id, k);
        lemma_layout_keeps_flags(m2, c, id);
    }
}

/// Law: a window moved to another valid workspace is on that workspace
/// afterwards, in its window table entry and in the workspace's windows.
pub proof fn lemma_move_reads_back(a: State, b: State, w: WindowId, ws: u32)
    requires
        a.wf(),
        moves_window(a, w, ws),
        workspace_move_done(a, b, w, ws),
    ensures
        has_key(b.spec_windows(), w),
        data_of(b.spec_windows(), w).workspace == ws,
        b.spec_workspaces().workspace(ws).windows@.contains(w),
{
    let (m1, m2, m3) = choose|m1: State, m2: State, m3: State|
        #![trigger refocused(m1, m2), laid_out_state(m3, b)]
        m1.wf() && m2.wf() && m3.wf() && moved_window(a, m1, w, ws) && refocused(m1, m2) && emitted(
            m2,
            m3,
            IpcEvent::WindowMoved { id: w, from_workspace: data_of(a.spec_windows(), w).workspace, to_workspace: ws },
        ) && laid_out_state(m3, b);
    let k = key_index(a.spec_windows(), w);
    assert(m1.spec_windows()[k].0 == w);
    lemma_key_index_at(m1.spec_windows(), w, k);
    assert(m3.spec_windows() == m1.spec_windows());
    assert(m3.spec_workspaces() == m1.spec_workspaces());
    lemma_layout_keeps_flags(m3, b, w);
    let s = a.spec_workspaces();
    let s2 = m1.spec_workspaces();
    assert(workspace_with(s.workspace(ws), s2.workspace(ws), w));
    if !s.workspace(ws).windows@.contains(w) {
        assert(s2.workspace(ws).windows@.last() == w);
    }
}

/// Nothing left by `without_id(order, id)` is `id`.
proof fn lemma_without_id_lacks(order: Seq<WindowId>, id: WindowId)
    ensures
        !without_id(order, id).contains(id),
    decreases order.len(),
{
    if order.len() > 0 {
        lemma_without_id_lacks(order.drop_last(), id);
        let before = without_id(order.drop_last(), id);
        if order.last() != id {
            assert forall|i: int| 0 <= i < before.push(order.last()).len() implies before.push(order.last())[i] != id by {
                if i < before.len() {
                    assert(before.push(order.last())[i] == before[i]);
                }
            }
        }
    }
}

/// Law: after a window is removed it is gone from the window table, and a
/// window that was there is gone from the stacking order too.
pub proof fn lemma_removed_window_gone(a: State, b: State, id: WindowId)
    requires
        a.wf(),
        window_removed(a, b, id),
    ensures
        !has_key(b.spec_windows(), id),
        has_key(a.spec_windows(), id) ==> !b.spec_order().contains(id),
{
    if has_key(a.spec_windows(), id) {
        let (m1, m2) = choose|m1: State, m2: State| #![trigger refocused(m1, m2)]
            m1.wf() && m2.wf() && removed_window(a, m1, id) && refocused(m1, m2) && laid_out_state(m2, b);
        let ws = a.spec_windows();
        let k = key_index(ws, id);
        assert(m2.spec_windows() == m1.spec_windows());
        assert(m2.spec_order() == m1.spec_order());
        lemma_without_id_lacks(a.spec_order(), id);
        if has_key(b.spec_windows(), id) {
            let j = choose|j: int| 0 <= j < b.spec_windows().len() && (#[trigger] b.spec_windows()[j]).0 == id;
            assert(b.spec_windows()[j].0 == m2.spec_windows()[j].0);
            if j < k {
                assert(m1.spec_windows()[j] == ws[j]);
                assert(ws[j].0 != ws[k].0);
            } else {
                assert(m1.spec_windows()[j] == ws[j + 1]);
                assert(ws[k].0 != ws[j + 1].0);
            }
        }
    }
}

/// `b` is `a` with the output manager replaced by `m` and the rendered
/// output set to `out`; nothing else changed.
pub open spec fn outputs_replaced(a: State, b: State, m: OutputManager, out: Option<OutputId>) -> bool {
    &&& b.spec_output_manager() == m
    &&& b.spec_output_id() == out
    &&& b.spec_workspaces() == a.spec_workspaces()
    &&& b.spec_outputs() == a.spec_outputs()
    &&& b.spec_layout() == a.spec_layout()
    &&& b.spec_output_size() == a.spec_output_size()
    &&& b.spec_tiling_area() == a.spec_tiling_area()
    &&& b.spec_master_extent() == a.spec_master_extent()
    &&& b.spec_floating_geometry() == a.spec_floating_geometry()
    &&& b.spec_next_id() == a.spec_next_id()
    &&& same_windows(a, b)
    &&& same_focus(a, b)
    &&& same_redraw(a, b)
    &&& b.spec_effects() == a.spec_effects()
}

/// The known output named `name` in `m`, if any.
pub open spec fn output_named(m: OutputManager, name: Seq<char>) -> Option<OutputId> {
    match m.spec_map().name_lookup(name) {
        Some(id) => if m.spec_map().has(id) {
            Some(id)
        } else {
            None
        },
        None => None,
    }
}

impl State {
    fn output_by_name(&self, name: &str) -> (r: Option<OutputId>)
        requires
            self.wf(),
        ensures
            r == output_named(self.spec_output_manager(), name@),
    {
        match self.output_manager.map().get_by_name(name) {
            Some(o) => {
                proof {
                    let m = self.spec_output_manager().spec_map();
                    let id = m.name_lookup(name@)->0;
                    m.lemma_index(m.index_of(id));
                }
                Some(o.id)
            },
            None => None,
        }
    }

    /// Makes sure an output named `name` is known (a new one takes the next
    /// identity of `ids`) and records its logical size. Returns its identity.
    pub fn register_output(&mut self, name: String, logical_size: Size, ids: &mut OutputIdCounter) -> (id: OutputId)
        requires
            old(self).wf(),
            old(ids).spec_last() < u64::MAX,
        ensures
            final(self).wf(),
            match output_named(old(self).spec_output_manager(), name@) {
                Some(existing) => id == existing && final(ids).spec_last() == old(ids).spec_last(),
                None => id.0 == old(ids).spec_last() + 1 && final(ids).spec_last() == id.0,
            },
            final(self).spec_output_manager().spec_map().has(id),
            final(self).spec_output_manager().spec_map().spec_outputs()[final(self).spec_output_manager().spec_map().index_of(
                id,
            )].size == logical_size,
            final(self).spec_output_manager().spec_changes() == (if output_named(old(self).spec_output_manager(), name@) is Some {
                old(self).spec_output_manager().spec_changes()
            } else {
                old(self).spec_output_manager().spec_changes().push(OutputChange::Added(id))
            }).push(OutputChange::Changed(id, OutputProperty::Size(logical_size))),
            outputs_replaced(*old(self), *final(self), final(self).spec_output_manager(), old(self).spec_output_id()),
    {
        let id = match self.output_by_name(name.as_str()) {
            Some(existing) => existing,
            None => {
                let id = OutputId::next(ids);
                self.output_manager.add_output(OutputState::new(id, name, logical_size))
            },
        };
        let ghost mid = self.output_manager;
        proof {
            mid.spec_map().lemma_index(mid.spec_map().index_of(id));
        }
        self.output_manager.update_property(id, OutputProperty::Size(logical_size));
        proof {
            let m = self.output_manager.spec_map();
            let i = mid.spec_map().index_of(id);
            assert(m.spec_outputs()[i].id == id);
            m.lemma_index(i);
            m.lemma_index(m.index_of(id));
        }
        id
    }

    /// An output a client bound: a name not known yet becomes a new output
    /// (with the next identity of `ids` and the compositor's output size),
    /// and the first one becomes the rendered output. Returns the new
    /// output's identity, or `None` for a known name.
    pub fn output_bound(&mut self, name: String, ids: &mut OutputIdCounter) -> (r: Option<OutputId>)
        requires
            old(self).wf(),
            old(ids).spec_last() < u64::MAX,
        ensures
            final(self).wf(),
            output_named(old(self).spec_output_manager(), name@) is Some ==> {
                &&& r is None
                &&& *final(self) == *old(self)
                &&& final(ids).spec_last() == old(ids).spec_last()
            },
            output_named(old(self).spec_output_manager(), name@) is None ==> (r matches Some(id) && {
                let m = final(self).spec_output_manager().spec_map();
                let o = m.spec_outputs()[m.index_of(id)];
                &&& id.0 == old(ids).spec_last() + 1
                &&& final(ids).spec_last() == id.0
                &&& m.has(id)
                &&& o.id == id && o.name@ == name@ && o.size == old(self).spec_output_size()
                &&& final(self).spec_output_manager().spec_changes() == old(self).spec_output_manager().spec_changes().push(
                    OutputChange::Added(id),
                )
                &&& outputs_replaced(
                    *old(self),
                    *final(self),
                    final(self).spec_output_manager(),
                    if old(self).spec_output_id() is None {
                        Some(id)
                    } else {
                        old(self).spec_output_id()
                    },
                )
            }),
    {
        if self.output_by_name(name.as_str()).is_some() {
            return None;
        }
        let id = OutputId::next(ids);
        self.output_manager.add_output(OutputState::new(id, name, self.output_size));
        if self.output_id.is_none() {
            self.output_id = Some(id);
        }
        Some(id)
    }
}

/// `b` is `a` with the layout gaps set to `inner` and `outer`.
pub open spec fn gaps_set(a: State, b: State, inner: i32, outer: i32) -> bool {
    &&& b.spec_layout().spec_gaps_inner() == inner
    &&& b.spec_layout().spec_gaps_outer() == outer
    &&& b.spec_layout().spec_mode() == a.spec_layout().spec_mode()
    &&& b.spec_layout().spec_overrides() == a.spec_layout().spec_overrides()
    &&& b.spec_workspaces() == a.spec_workspaces()
    &&& b.spec_outputs() == a.spec_outputs()
    &&& b.spec_output_size() == a.spec_output_size()
    &&& b.spec_tiling_area() == a.spec_tiling_area()
    &&& b.spec_master_extent() == a.spec_master_extent()
    &&& b.spec_floating_geometry() == a.spec_floating_geometry()
    &&& b.spec_output_manager() == a.spec_output_manager()
    &&& b.spec_output_id() == a.spec_output_id()
    &&& b.spec_next_id() == a.spec_next_id()
    &&& same_windows(a, b)
    &&& same_focus(a, b)
    &&& same_redraw(a, b)
    &&& b.spec_effects() == a.spec_effects()
}

impl State {
    /// Sets the inner and outer layout gaps.
    pub fn set_gaps(&mut self, inner: i32, outer: i32)
        requires
            old(self).wf(),
        ensures
            final(self).wf(),
            gaps_set(*old(self), *final(self), inner, outer),
    {
        self.layout_engine.set_gaps(inner, outer);
    }
}

} // verus!
