use vstd::prelude::*;
use crate::geometry::Rect;

verus! {

/// The identity of a toplevel window.
#[derive(Clone, Copy, Debug, PartialEq, Eq, Hash, Structural)]
pub struct WindowId(pub u64);

/// The source of window identities: the next one to hand out.
#[derive(Debug)]
pub struct WindowIdCounter {
    next: u64,
}

impl WindowIdCounter {
    pub closed spec fn spec_next(&self) -> u64 {
        self.next
    }

    /// A counter whose first identity is 1.
    pub fn new() -> (c: WindowIdCounter)
        ensures
            c.spec_next() == 1,
    {
        WindowIdCounter { next: 1 }
    }
}

/// Hands out the next window identity of `counter`.
pub fn new_window_id(counter: &mut WindowIdCounter) -> (id: WindowId)
    requires
        old(counter).spec_next() < u64::MAX,
    ensures
        id.0 == old(counter).spec_next(),
        final(counter).spec_next() == old(counter).spec_next() + 1,
{
    let id = WindowId(counter.next);
    counter.next = counter.next + 1;
    id
}

/// The state bits that the window manager keeps for each window.
#[derive(Clone, Copy, Debug, PartialEq, Eq, Structural)]
pub struct WindowFlags {
    pub floating: bool,
    pub fullscreen: bool,
    pub pinned: bool,
    pub urgent: bool,
}

impl WindowFlags {
    /// All flags cleared.
    pub fn new() -> (f: WindowFlags)
        ensures
            !f.floating,
            !f.fullscreen,
            !f.pinned,
            !f.urgent,
    {
        WindowFlags { floating: false, fullscreen: false, pinned: false, urgent: false }
    }
}

impl Default for WindowFlags {
    fn default() -> (f: WindowFlags)
        ensures
            f == WindowFlags::spec_cleared(),
    {
        WindowFlags::new()
    }
}

impl WindowFlags {
    pub open spec fn spec_cleared() -> WindowFlags {
        WindowFlags { floating: false, fullscreen: false, pinned: false, urgent: false }
    }
}

/// The bits of the `f32` opacity 1.0, a fully opaque window.
pub const OPAQUE_BITS: u32 = 0x3f80_0000;

/// What the window manager keeps of a window. `surface` is the key of its
/// Wayland surface; `has_toplevel` tells an xdg toplevel from an X11 window;
/// `alive` says whether the client still holds the window; the opacity is
/// carried as the bits of an `f32`.
#[derive(Debug)]
pub struct WindowData {
    pub id: WindowId,
    pub surface: u64,
    pub has_toplevel: bool,
    pub flags: WindowFlags,
    pub geometry: Rect,
    pub workspace: u32,
    pub title: String,
    pub app_id: String,
    pub opacity_bits: u32,
    pub resize_delta: (i32, i32),
    pub alive: bool,
}

/// A window as it starts: workspace 1, no flags, an empty geometry at the
/// origin, no title or app id, opaque, not resized.
pub open spec fn fresh_window(w: WindowData, id: WindowId, surface: u64, has_toplevel: bool) -> bool {
    &&& w.id == id
    &&& w.surface == surface
    &&& w.has_toplevel == has_toplevel
    &&& w.flags == WindowFlags::spec_cleared()
    &&& w.geometry == Rect::spec_from_size(0, 0)
    &&& w.workspace == 1
    &&& w.title@.len() == 0
    &&& w.app_id@.len() == 0
    &&& w.opacity_bits == OPAQUE_BITS
    &&& w.resize_delta == (0i32, 0i32)
    &&& w.alive
}

impl WindowData {
    /// A new xdg toplevel window.
    pub fn new(id: WindowId, surface: u64) -> (w: WindowData)
        ensures
            fresh_window(w, id, surface, true),
    {
        WindowData {
            id,
            surface,
            has_toplevel: true,
            flags: WindowFlags::new(),
            geometry: Rect::from_size(0, 0),
            workspace: 1,
            title: String::new(),
            app_id: String::new(),
            opacity_bits: OPAQUE_BITS,
            resize_delta: (0, 0),
            alive: true,
        }
    }

    /// A new X11 window.
    pub fn new_x11(id: WindowId, surface: u64) -> (w: WindowData)
        ensures
            fresh_window(w, id, surface, false),
    {
        WindowData {
            id,
            surface,
            has_toplevel: false,
            flags: WindowFlags::new(),
            geometry: Rect::from_size(0, 0),
            workspace: 1,
            title: String::new(),
            app_id: String::new(),
            opacity_bits: OPAQUE_BITS,
            resize_delta: (0, 0),
            alive: true,
        }
    }

    pub fn is_alive(&self) -> (b: bool)
        ensures
            b == self.alive,
    {
        self.alive
    }

    /// Sets the geometry and returns the previous one.
    pub fn set_geometry(&mut self, geometry: Rect) -> (previous: Rect)
        ensures
            previous == old(self).geometry,
            final(self).geometry == geometry,
            final(self).id == old(self).id,
            final(self).surface == old(self).surface,
            final(self).has_toplevel == old(self).has_toplevel,
            final(self).flags == old(self).flags,
            final(self).workspace == old(self).workspace,
            final(self).title == old(self).title,
            final(self).app_id == old(self).app_id,
            final(self).opacity_bits == old(self).opacity_bits,
            final(self).resize_delta == old(self).resize_delta,
            final(self).alive == old(self).alive,
    {
        let previous = self.geometry;
        self.geometry = geometry;
        previous
    }
}

} // verus!
