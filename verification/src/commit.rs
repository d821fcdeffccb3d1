use vstd::prelude::*;
use crate::layer_shell::{handle_layer_surface_commit, holds_surface, marked, LayerShellManager};
use crate::session_lock::{handle_lock_surface_commit, holds_lock_surface, SessionLockManager};
use crate::state::{metadata_updated, redraw_step, State};

verus! {

/// Who a committed surface belongs to.
#[derive(Debug, Clone, Copy, PartialEq, Eq, Structural)]
pub enum CommitTarget {
    LockSurface,
    LayerSurface,
    /// Anything else: a window's surface or one the window manager does
    /// not know; `metadata_changed` tells whether the window took new names.
    Other { metadata_changed: bool },
}

/// Takes a commit of surface `key`, which carries `has_buffer` and the
/// title and app id its toplevel role holds. A lock surface only asks for a
/// redraw; a layer surface is recorded as mapped or not and asks for one;
/// otherwise the window of the surface takes the new names and a redraw is
/// asked for.
pub fn handle_commit(
    state: &mut State,
    locks: &SessionLockManager,
    layers: &mut LayerShellManager,
    key: u64,
    has_buffer: bool,
    title: Option<String>,
    app_id: Option<String>,
) -> (r: CommitTarget)
    requires
        old(state).wf(),
    ensures
        final(state).wf(),
        holds_lock_surface(locks.spec_surfaces(), key) ==> {
            &&& r == CommitTarget::LockSurface
            &&& redraw_step(*old(state), *final(state))
            &&& *final(layers) == *old(layers)
        },
        !holds_lock_surface(locks.spec_surfaces(), key) && holds_surface(old(layers).spec_surfaces(), key) ==> {
            &&& r == CommitTarget::LayerSurface
            &&& redraw_step(*old(state), *final(state))
            &&& final(layers).spec_surfaces() == marked(old(layers).spec_surfaces(), key, has_buffer)
            &&& final(layers).spec_pending() == old(layers).spec_pending()
        },
        !holds_lock_surface(locks.spec_surfaces(), key) && !holds_surface(old(layers).spec_surfaces(), key) ==> {
            &&& *final(layers) == *old(layers)
            &&& exists|m: State| #![trigger redraw_step(m, *final(state))]
                m.wf() && (r matches CommitTarget::Other { metadata_changed } && metadata_updated(
                    *old(state),
                    m,
                    key,
                    title,
                    app_id,
                    metadata_changed,
                )) && redraw_step(m, *final(state))
        },
{
    if handle_lock_surface_commit(locks, state, key) {
        return CommitTarget::LockSurface;
    }
    if handle_layer_surface_commit(layers, state, key, has_buffer) {
        return CommitTarget::LayerSurface;
    }
    let changed = state.update_window_metadata(key, title, app_id);
    let ghost m = *state;
    state.mark_redraw();
    assert(redraw_step(m, *state));
    CommitTarget::Other { metadata_changed: changed }
}

} // verus!
