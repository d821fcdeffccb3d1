use vstd::prelude::*;
use crate::geometry::Size;
use crate::output_id::{OutputId, OutputIdCounter};
use crate::state::{redraw_step, State};

verus! {

/// Where a lock surface goes when its client names no known output: the
/// primary output, else the current one, else a fresh output identity with
/// a 1920x1080 size.
pub fn resolve_lock_surface_target(
    primary_output: Option<(OutputId, Size)>,
    current_output: Option<(OutputId, Size)>,
    ids: &mut OutputIdCounter,
) -> (r: (OutputId, Size))
    requires
        old(ids).spec_last() < u64::MAX,
    ensures
        match primary_output {
            Some(p) => r == p && final(ids).spec_last() == old(ids).spec_last(),
            None => match current_output {
                Some(c) => r == c && final(ids).spec_last() == old(ids).spec_last(),
                None => r.0.0 == old(ids).spec_last() + 1 && final(ids).spec_last() == r.0.0 && r.1 == (Size {
                    w: 1920,
                    h: 1080,
                }),
            },
        },
{
    if let Some(output) = primary_output {
        return output;
    }
    if let Some(output) = current_output {
        return output;
    }
    (OutputId::next(ids), Size { w: 1920, h: 1080 })
}

/// Where a new lock surface goes: the output its client named when that is
/// known, else as `resolve_lock_surface_target` decides.
pub fn lock_surface_target(
    requested_output: Option<(OutputId, Size)>,
    primary_output: Option<(OutputId, Size)>,
    current_output: Option<(OutputId, Size)>,
    ids: &mut OutputIdCounter,
) -> (r: (OutputId, Size))
    requires
        old(ids).spec_last() < u64::MAX,
    ensures
        match requested_output {
            Some(q) => r == q && final(ids).spec_last() == old(ids).spec_last(),
            None => match primary_output {
                Some(p) => r == p && final(ids).spec_last() == old(ids).spec_last(),
                None => match current_output {
                    Some(c) => r == c && final(ids).spec_last() == old(ids).spec_last(),
                    None => r.0.0 == old(ids).spec_last() + 1 && final(ids).spec_last() == r.0.0 && r.1 == (Size {
                        w: 1920,
                        h: 1080,
                    }),
                },
            },
        },
{
    match requested_output {
        Some(output) => output,
        None => resolve_lock_surface_target(primary_output, current_output, ids),
    }
}

/// A lock surface: its surface key, the output it covers, and whether it
/// was configured.
#[derive(Clone, Copy, Debug, PartialEq, Eq, Structural)]
pub struct LockSurfaceInfo {
    pub surface: u64,
    pub output_id: OutputId,
    pub configured: bool,
}

/// Whether the session is locked, the lock surfaces, and whether a lock
/// request still waits to be confirmed to its client.
#[derive(Debug)]
pub struct SessionLockManager {
    locked: bool,
    lock_surfaces: Vec<LockSurfaceInfo>,
    pending_locker: bool,
}

/// What the compositor does for a new lock surface: configure it to `size`,
/// and confirm the lock to its client when `confirm_lock`.
#[derive(Clone, Copy, Debug)]
pub struct LockSurfaceConfigure {
    pub size: (u32, u32),
    pub confirm_lock: bool,
}

/// `s` holds a record of surface `key`.
pub open spec fn holds_lock_surface(s: Seq<LockSurfaceInfo>, key: u64) -> bool {
    exists|i: int| 0 <= i < s.len() && (#[trigger] s[i]).surface == key
}

/// `i` is the first record of surface `key` in `s`.
pub open spec fn first_lock_surface(s: Seq<LockSurfaceInfo>, key: u64, i: int) -> bool {
    &&& 0 <= i < s.len()
    &&& s[i].surface == key
    &&& forall|j: int| 0 <= j < i ==> (#[trigger] s[j]).surface != key
}

/// Law: a surface that was not a lock surface, once added, is one, and
/// removing it gives back the records there were before.
pub proof fn lemma_lock_surface_add_then_remove(s: Seq<LockSurfaceInfo>, surface: u64, output_id: OutputId)
    requires
        !holds_lock_surface(s, surface),
    ensures
        holds_lock_surface(s.push(LockSurfaceInfo { surface, output_id, configured: true }), surface),
        forall|i: int|
            first_lock_surface(s.push(LockSurfaceInfo { surface, output_id, configured: true }), surface, i) ==> i
                == s.len() && #[trigger] s.push(LockSurfaceInfo { surface, output_id, configured: true }).remove(i) == s,
{
    let t = s.push(LockSurfaceInfo { surface, output_id, configured: true });
    let n = s.len() as int;
    assert(t[n].surface == surface);
    assert forall|i: int| first_lock_surface(t, surface, i) implies i == n && #[trigger] t.remove(i) == s by {
        if i < n {
            assert(t[i] == s[i]);
        }
        assert(t.remove(n) =~= s);
    }
}

impl SessionLockManager {
    pub closed spec fn spec_locked(&self) -> bool {
        self.locked
    }

    pub closed spec fn spec_surfaces(&self) -> Seq<LockSurfaceInfo> {
        self.lock_surfaces@
    }

    pub closed spec fn spec_pending_locker(&self) -> bool {
        self.pending_locker
    }

    /// An unlocked session with no lock surface.
    pub fn new() -> (m: SessionLockManager)
        ensures
            !m.spec_locked(),
            m.spec_surfaces().len() == 0,
            !m.spec_pending_locker(),
    {
        SessionLockManager { locked: false, lock_surfaces: Vec::new(), pending_locker: false }
    }

    pub fn is_locked(&self) -> (b: bool)
        ensures
            b == self.spec_locked(),
    {
        self.locked
    }

    /// Locks the session for a lock request. Answers whether the request is
    /// confirmed to its client now; a request while locked is refused and
    /// changes nothing.
    pub fn lock(&mut self) -> (confirm: bool)
        ensures
            confirm == !old(self).spec_locked(),
            final(self).spec_locked(),
            final(self).spec_surfaces() == old(self).spec_surfaces(),
            !old(self).spec_locked() ==> !final(self).spec_pending_locker(),
            old(self).spec_locked() ==> final(self).spec_pending_locker() == old(self).spec_pending_locker(),
    {
        if self.locked {
            return false;
        }
        self.locked = true;
        self.pending_locker = true;
        self.confirm_lock()
    }

    fn confirm_lock(&mut self) -> (confirm: bool)
        ensures
            confirm == old(self).spec_pending_locker(),
            !final(self).spec_pending_locker(),
            final(self).spec_locked() == old(self).spec_locked(),
            final(self).spec_surfaces() == old(self).spec_surfaces(),
    {
        let had = self.pending_locker;
        self.pending_locker = false;
        had
    }

    /// Unlocks the session and forgets the lock surfaces; an unlocked
    /// session stays as it is.
    pub fn unlock(&mut self)
        ensures
            !final(self).spec_locked(),
            old(self).spec_locked() ==> final(self).spec_surfaces().len() == 0 && !final(self).spec_pending_locker(),
            !old(self).spec_locked() ==> *final(self) == *old(self),
    {
        if !self.locked {
            return;
        }
        self.locked = false;
        self.lock_surfaces.clear();
        self.pending_locker = false;
    }

    /// Records a lock surface on output `output_id` of size `output_size`.
    /// Answers the size to configure it to, and whether a waiting lock
    /// request is confirmed now.
    pub fn add_lock_surface(&mut self, surface: u64, output_id: OutputId, output_size: Size) -> (r: LockSurfaceConfigure)
        ensures
            r.size == (output_size.w as u32, output_size.h as u32),
            r.confirm_lock == old(self).spec_pending_locker(),
            !final(self).spec_pending_locker(),
            final(self).spec_locked() == old(self).spec_locked(),
            final(self).spec_surfaces() == old(self).spec_surfaces().push(
                LockSurfaceInfo { surface, output_id, configured: true },
            ),
    {
        let size = (output_size.w as u32, output_size.h as u32);
        self.lock_surfaces.push(LockSurfaceInfo { surface, output_id, configured: true });
        let confirm = if self.pending_locker {
            self.confirm_lock()
        } else {
            false
        };
        LockSurfaceConfigure { size, confirm_lock: confirm }
    }

    fn position(&self, key: u64) -> (r: Option<usize>)
        ensures
            match r {
                Some(i) => first_lock_surface(self.spec_surfaces(), key, i as int),
                None => !holds_lock_surface(self.spec_surfaces(), key),
            },
    {
        let mut i: usize = 0;
        while i < self.lock_surfaces.len()
            invariant
                i <= self.lock_surfaces@.len(),
                forall|j: int| 0 <= j < i ==> (#[trigger] self.lock_surfaces@[j]).surface != key,
            decreases self.lock_surfaces.len() - i,
        {
            if self.lock_surfaces[i].surface == key {
                return Some(i);
            }
            i += 1;
        }
        None
    }

    /// Forgets the first record of lock surface `key`.
    pub fn remove_lock_surface(&mut self, key: u64)
        ensures
            final(self).spec_locked() == old(self).spec_locked(),
            final(self).spec_pending_locker() == old(self).spec_pending_locker(),
            !holds_lock_surface(old(self).spec_surfaces(), key) ==> final(self).spec_surfaces() == old(self).spec_surfaces(),
            holds_lock_surface(old(self).spec_surfaces(), key) ==> exists|i: int|
                first_lock_surface(old(self).spec_surfaces(), key, i) && final(self).spec_surfaces()
                    == #[trigger] old(self).spec_surfaces().remove(i),
    {
        if let Some(pos) = self.position(key) {
            let ghost before = self.lock_surfaces@;
            self.lock_surfaces.remove(pos);
            assert(first_lock_surface(before, key, pos as int));
        }
    }

    pub fn lock_surfaces(&self) -> (r: &[LockSurfaceInfo])
        ensures
            r@ == self.spec_surfaces(),
    {
        self.lock_surfaces.as_slice()
    }

    /// Whether surface `key` is a lock surface.
    pub fn is_lock_surface(&self, key: u64) -> (b: bool)
        ensures
            b == holds_lock_surface(self.spec_surfaces(), key),
    {
        self.position(key).is_some()
    }

    /// While locked with a lock surface, only lock surfaces are drawn.
    pub fn should_render_only_lock_surfaces(&self) -> (b: bool)
        ensures
            b == (self.spec_locked() && self.spec_surfaces().len() > 0),
    {
        self.locked && self.lock_surfaces.len() > 0
    }
}

/// Whether the session is locked.
pub fn is_session_locked(manager: &SessionLockManager) -> (b: bool)
    ensures
        b == manager.spec_locked(),
{
    manager.is_locked()
}

/// Whether only lock surfaces are drawn: the session is locked and has a
/// lock surface.
pub fn should_render_lock_surfaces_only(manager: &SessionLockManager) -> (b: bool)
    ensures
        b == (manager.spec_locked() && manager.spec_surfaces().len() > 0),
{
    manager.should_render_only_lock_surfaces()
}

/// The surfaces of the lock surfaces, in the order they were added.
pub fn get_lock_surfaces(manager: &SessionLockManager) -> (r: Vec<u64>)
    ensures
        r@ == manager.spec_surfaces().map_values(|i: LockSurfaceInfo| i.surface),
{
    let infos = manager.lock_surfaces();
    let mut r: Vec<u64> = Vec::new();
    let mut i: usize = 0;
    while i < infos.len()
        invariant
            i <= infos@.len(),
            infos@ == manager.spec_surfaces(),
            r@ == infos@.subrange(0, i as int).map_values(|x: LockSurfaceInfo| x.surface),
        decreases infos.len() - i,
    {
        r.push(infos[i].surface);
        i += 1;
        assert(r@ =~= infos@.subrange(0, i as int).map_values(|x: LockSurfaceInfo| x.surface));
    }
    assert(infos@.subrange(0, infos@.len() as int) =~= infos@);
    r
}

/// Takes a commit of surface `key`: for a lock surface a redraw is due.
/// Answers whether `key` is a lock surface.
pub fn handle_lock_surface_commit(manager: &SessionLockManager, state: &mut State, key: u64) -> (r: bool)
    requires
        old(state).wf(),
    ensures
        final(state).wf(),
        r == holds_lock_surface(manager.spec_surfaces(), key),
        r ==> redraw_step(*old(state), *final(state)),
        !r ==> *final(state) == *old(state),
{
    if !manager.is_lock_surface(key) {
        return false;
    }
    state.mark_redraw();
    true
}

/// A client asks to lock the session: unless it already is locked, it is
/// locked and a redraw is due. Answers whether the request is confirmed.
pub fn request_lock(manager: &mut SessionLockManager, state: &mut State) -> (confirm: bool)
    requires
        old(state).wf(),
    ensures
        final(state).wf(),
        confirm == !old(manager).spec_locked(),
        final(manager).spec_locked(),
        final(manager).spec_surfaces() == old(manager).spec_surfaces(),
        confirm ==> redraw_step(*old(state), *final(state)),
        !confirm ==> *final(state) == *old(state) && *final(manager) == *old(manager),
{
    if manager.is_locked() {
        return false;
    }
    let confirm = manager.lock();
    state.mark_redraw();
    confirm
}

/// The client unlocks the session: when locked, it is unlocked, the lock
/// surfaces are forgotten and a redraw is due.
pub fn request_unlock(manager: &mut SessionLockManager, state: &mut State)
    requires
        old(state).wf(),
    ensures
        final(state).wf(),
        !final(manager).spec_locked(),
        old(manager).spec_locked() ==> final(manager).spec_surfaces().len() == 0 && redraw_step(*old(state), *final(state)),
        !old(manager).spec_locked() ==> *final(state) == *old(state) && *final(manager) == *old(manager),
{
    if !manager.is_locked() {
        return;
    }
    manager.unlock();
    state.mark_redraw();
}

/// A new lock surface on the output resolved for it: it is recorded, and a
/// redraw is due. Answers how to configure it.
pub fn add_lock_surface_for(manager: &mut SessionLockManager, state: &mut State, surface: u64, target: (OutputId, Size)) -> (r:
    LockSurfaceConfigure)
    requires
        old(state).wf(),
    ensures
        final(state).wf(),
        r.size == (target.1.w as u32, target.1.h as u32),
        r.confirm_lock == old(manager).spec_pending_locker(),
        final(manager).spec_surfaces() == old(manager).spec_surfaces().push(
            LockSurfaceInfo { surface, output_id: target.0, configured: true },
        ),
        final(manager).spec_locked() == old(manager).spec_locked(),
        redraw_step(*old(state), *final(state)),
{
    let r = manager.add_lock_surface(surface, target.0, target.1);
    state.mark_redraw();
    r
}

} // verus!
