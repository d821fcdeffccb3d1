use vstd::prelude::*;
use crate::digits::{decimal, decimal_string};
use crate::window::WindowId;

verus! {

/// The number of workspaces in every set, numbered from 1.
pub const WORKSPACE_COUNT: u32 = 10;

/// A numbered workspace: the windows it holds and the one focused in it.
#[derive(Debug)]
pub struct Workspace {
    pub id: u32,
    pub name: String,
    /// The windows on this workspace; none occurs twice.
    pub windows: Vec<WindowId>,
    pub focused_window: Option<WindowId>,
}

/// The first window of `ws` other than `id`, if there is one.
pub open spec fn first_other(ws: Seq<WindowId>, id: WindowId) -> Option<WindowId> {
    if ws.len() > 0 && ws[0] != id {
        Some(ws[0])
    } else if ws.len() > 1 && ws[1] != id {
        Some(ws[1])
    } else {
        None
    }
}

impl Workspace {
    /// No window occurs twice, and the focused window is one of them.
    pub open spec fn wf(&self) -> bool {
        &&& self.windows@.no_duplicates()
        &&& (self.focused_window matches Some(f) ==> self.windows@.contains(f))
    }

    /// The windows, as a set.
    pub open spec fn window_set(&self) -> Set<WindowId> {
        Set::new(|w: WindowId| self.windows@.contains(w))
    }

    pub fn new(id: u32) -> (ws: Workspace)
        ensures
            ws.wf(),
            ws.id == id,
            ws.name@ == decimal(id as nat),
            ws.windows@.len() == 0,
            ws.focused_window is None,
    {
        Workspace { id, name: decimal_string(id as u64), windows: Vec::new(), focused_window: None }
    }

    fn position_of(&self, id: WindowId) -> (r: Option<usize>)
        ensures
            match r {
                Some(i) => i < self.windows@.len() && self.windows@[i as int] == id,
                None => !self.windows@.contains(id),
            },
    {
        let mut i: usize = 0;
        while i < self.windows.len()
            invariant
                i <= self.windows@.len(),
                forall|j: int| 0 <= j < i ==> self.windows@[j] != id,
            decreases self.windows.len() - i,
        {
            if self.windows[i] == id {
                return Some(i);
            }
            i += 1;
        }
        None
    }

    /// Adds the window; a window already present is not added twice.
    pub fn add_window(&mut self, window_id: WindowId)
        ensures
            old(self).windows@.no_duplicates() ==> final(self).windows@.no_duplicates(),
            old(self).wf() ==> final(self).wf(),
            final(self).window_set() == old(self).window_set().insert(window_id),
            final(self).windows@ == (if old(self).windows@.contains(window_id) {
                old(self).windows@
            } else {
                old(self).windows@.push(window_id)
            }),
            final(self).id == old(self).id,
            final(self).name@ == old(self).name@,
            final(self).focused_window == old(self).focused_window,
    {
        if self.position_of(window_id).is_none() {
            self.windows.push(window_id);
            assert forall|w: WindowId| #[trigger] self.windows@.contains(w) <==> (old(self).windows@.contains(w) || w == window_id) by {
                if self.windows@.contains(w) {
                    let k = choose|k: int| 0 <= k < self.windows@.len() && self.windows@[k] == w;
                    if k < old(self).windows@.len() {
                        assert(old(self).windows@[k] == w);
                    }
                }
                if old(self).windows@.contains(w) {
                    let k = choose|k: int| 0 <= k < old(self).windows@.len() && old(self).windows@[k] == w;
                    assert(self.windows@[k] == w);
                }
                if w == window_id {
                    assert(self.windows@[self.windows@.len() - 1] == w);
                }
            }
        }
        assert(self.window_set() =~= old(self).window_set().insert(window_id));
    }

    /// Removes the window and answers whether it was there. When it held the
    /// focus, the focus passes to another window of the workspace, or to none.
    pub fn remove_window(&mut self, id: WindowId) -> (removed: bool)
        requires
            old(self).wf(),
        ensures
            final(self).wf(),
            removed == old(self).window_set().contains(id),
            final(self).window_set() == old(self).window_set().remove(id),
            removed ==> exists|p: int| 0 <= p < old(self).windows@.len() && old(self).windows@[p] == id
                && final(self).windows@ == old(self).windows@.remove(p),
            !removed ==> final(self).windows@ == old(self).windows@,
            final(self).id == old(self).id,
            final(self).name@ == old(self).name@,
            final(self).focused_window == (if old(self).focused_window == Some(id) {
                first_other(old(self).windows@, id)
            } else {
                old(self).focused_window
            }),
    {
        if self.focused_window == Some(id) {
            let n = self.windows.len();
            if n > 0 && self.windows[0] != id {
                self.focused_window = Some(self.windows[0]);
            } else if n > 1 && self.windows[1] != id {
                self.focused_window = Some(self.windows[1]);
            } else {
                self.focused_window = None;
            }
        }
        let ghost before = self.windows@;
        match self.position_of(id) {
            Some(pos) => {
                self.windows.remove(pos);
                assert forall|w: WindowId| #[trigger] self.windows@.contains(w) <==> (before.contains(w) && w != id) by {
                    if self.windows@.contains(w) {
                        let k = choose|k: int| 0 <= k < self.windows@.len() && self.windows@[k] == w;
                        if k < pos {
                            assert(before[k] == w);
                        } else {
                            assert(before[k + 1] == w);
                        }
                    }
                    if before.contains(w) && w != id {
                        let k = choose|k: int| 0 <= k < before.len() && before[k] == w;
                        if k < pos {
                            assert(self.windows@[k] == w);
                        } else {
                            assert(k != pos);
                            assert(self.windows@[k - 1] == w);
                        }
                    }
                }
                proof { if let Some(f) = self.focused_window {
                    assert(f != id);
                    assert(before.contains(f)) by {
                        if old(self).focused_window == Some(id) {
                            if before.len() > 0 && before[0] != id {
                                assert(before[0] == f);
                            } else {
                                assert(before[1] == f);
                            }
                        }
                    }
                } }
                assert(self.window_set() =~= old(self).window_set().remove(id));
                true
            },
            None => {
                assert(self.window_set() =~= old(self).window_set().remove(id));
                proof {
                    if let Some(f) = self.focused_window {
                        if old(self).focused_window == Some(id) {
                            if before.len() > 0 && before[0] != id {
                                assert(before[0] == f);
                            } else {
                                assert(before[1] == f);
                            }
                        }
                    }
                }
                false
            },
        }
    }

    /// Focuses the window if it is on this workspace; otherwise nothing changes.
    pub fn focus_window(&mut self, id: WindowId)
        ensures
            old(self).wf() ==> final(self).wf(),
            final(self).windows@ == old(self).windows@,
            final(self).id == old(self).id,
            final(self).name@ == old(self).name@,
            final(self).focused_window == (if old(self).window_set().contains(id) {
                Some(id)
            } else {
                old(self).focused_window
            }),
    {
        if self.position_of(id).is_some() {
            self.focused_window = Some(id);
        }
    }

    pub fn contains(&self, id: WindowId) -> (b: bool)
        ensures
            b == self.window_set().contains(id),
    {
        self.position_of(id).is_some()
    }

    pub fn window_count(&self) -> (n: usize)
        requires
            self.wf(),
        ensures
            n == self.window_set().len(),
    {
        proof {
            self.lemma_count();
        }
        self.windows.len()
    }

    pub fn is_empty(&self) -> (b: bool)
        ensures
            b == self.window_set().is_empty(),
    {
        if self.windows.len() == 0 {
            assert(self.window_set() =~= Set::empty());
            true
        } else {
            assert(self.window_set().contains(self.windows@[0]));
            false
        }
    }

    pub proof fn lemma_count(&self)
        requires
            self.wf(),
        ensures
            self.window_set().len() == self.windows@.len(),
            self.window_set().finite(),
    {
        assert(self.window_set() =~= self.windows@.to_set());
        self.windows@.unique_seq_to_set();
    }
}

} // verus!

verus! {

/// The ten numbered workspaces of one output, with the one shown on it.
#[derive(Debug)]
pub struct WorkspaceSet {
    workspaces: Vec<Workspace>,
    active: u32,
    output: Option<String>,
}

/// `id` names one of the workspaces of a set.
pub open spec fn valid_workspace(id: u32) -> bool {
    1 <= id <= WORKSPACE_COUNT
}

/// The windows of workspace `id` after `window` moved from the active
/// workspace of `set` to workspace `target`.
pub open spec fn moved_set(set: WorkspaceSet, window: WindowId, target: u32, id: u32) -> Set<WindowId> {
    let base = if id == set.spec_active() {
        set.workspace(id).window_set().remove(window)
    } else {
        set.workspace(id).window_set()
    };
    if set.workspace(set.spec_active()).window_set().contains(window) && valid_workspace(target) && id
        == target {
        base.insert(window)
    } else {
        base
    }
}

/// The workspace shown after `active` when stepping forward, wrapping from 10 to 1.
pub open spec fn next_id(active: u32) -> u32 {
    if active >= WORKSPACE_COUNT {
        1
    } else {
        (active + 1) as u32
    }
}

/// The workspace shown after `active` when stepping back, wrapping from 1 to 10.
pub open spec fn prev_id(active: u32) -> u32 {
    if active <= 1 {
        WORKSPACE_COUNT
    } else {
        (active - 1) as u32
    }
}

impl WorkspaceSet {
    pub closed spec fn spec_workspaces(&self) -> Seq<Workspace> {
        self.workspaces@
    }

    pub closed spec fn spec_active(&self) -> u32 {
        self.active
    }

    pub closed spec fn spec_output(&self) -> Option<String> {
        self.output
    }

    /// The workspace with number `id` (meaningful for a valid `id`).
    pub open spec fn workspace(&self, id: u32) -> Workspace {
        self.spec_workspaces()[id - 1]
    }

    /// Exactly the workspaces 1 to 10, in order, each well formed, and the
    /// active one among them.
    pub open spec fn wf(&self) -> bool {
        &&& self.spec_workspaces().len() == WORKSPACE_COUNT
        &&& forall|i: int|
            0 <= i < WORKSPACE_COUNT ==> (#[trigger] self.spec_workspaces()[i]).id == i + 1
                && self.spec_workspaces()[i].wf()
        &&& valid_workspace(self.spec_active())
    }

    /// Every workspace of the set holds no window.
    pub open spec fn all_empty(&self) -> bool {
        forall|i: int| 0 <= i < WORKSPACE_COUNT ==> (#[trigger] self.spec_workspaces()[i]).windows@.len() == 0
    }

    pub fn new() -> (set: WorkspaceSet)
        ensures
            set.wf(),
            set.spec_active() == 1,
            set.spec_output() is None,
            set.all_empty(),
    {
        let mut workspaces: Vec<Workspace> = Vec::new();
        let mut id: u32 = 1;
        while id <= WORKSPACE_COUNT
            invariant
                1 <= id <= WORKSPACE_COUNT + 1,
                workspaces@.len() == id - 1,
                forall|i: int|
                    0 <= i < id - 1 ==> (#[trigger] workspaces@[i]).id == i + 1 && workspaces@[i].wf()
                        && workspaces@[i].windows@.len() == 0,
            decreases WORKSPACE_COUNT + 1 - id,
        {
            workspaces.push(Workspace::new(id));
            id += 1;
        }
        WorkspaceSet { workspaces, active: 1, output: None }
    }

    /// A fresh set that belongs to the named output.
    pub fn with_output(output: String) -> (set: WorkspaceSet)
        ensures
            set.wf(),
            set.spec_active() == 1,
            set.spec_output() == Some(output),
            set.all_empty(),
    {
        let mut set = Self::new();
        set.output = Some(output);
        set
    }

    pub fn get(&self, id: u32) -> (r: Option<&Workspace>)
        requires
            self.wf(),
        ensures
            r is Some <==> valid_workspace(id),
            r matches Some(w) ==> *w == self.workspace(id),
    {
        if 1 <= id && id <= WORKSPACE_COUNT {
            Some(&self.workspaces[(id - 1) as usize])
        } else {
            None
        }
    }


    /// Mutable access to workspace `id`. The caller keeps the set well formed
    /// by changing the workspace only through its own methods.
    pub fn get_mut(&mut self, id: u32) -> (r: Option<&mut Workspace>)
        requires
            old(self).wf(),
        ensures
            r is Some <==> valid_workspace(id),
            match r {
                Some(w) => {
                    &&& *w == old(self).workspace(id)
                    &&& final(self).spec_workspaces() == old(self).spec_workspaces().update(id - 1, *final(w))
                    &&& final(self).spec_active() == old(self).spec_active()
                    &&& final(self).spec_output() == old(self).spec_output()
                },
                None => *final(self) == *old(self),
            },
    {
        if 1 <= id && id <= WORKSPACE_COUNT {
            Some(&mut self.workspaces[(id - 1) as usize])
        } else {
            None
        }
    }

    pub fn active(&self) -> (w: &Workspace)
        requires
            self.wf(),
        ensures
            *w == self.workspace(self.spec_active()),
    {
        &self.workspaces[(self.active - 1) as usize]
    }


    /// Mutable access to the active workspace.
    pub fn active_mut(&mut self) -> (w: &mut Workspace)
        requires
            old(self).wf(),
        ensures
            *w == old(self).workspace(old(self).spec_active()),
            final(self).spec_workspaces() == old(self).spec_workspaces().update(
                old(self).spec_active() - 1,
                *final(w),
            ),
            final(self).spec_active() == old(self).spec_active(),
            final(self).spec_output() == old(self).spec_output(),
    {
        let idx = (self.active - 1) as usize;
        &mut self.workspaces[idx]
    }

    /// Takes the window off the active workspace and puts it on workspace
    /// `target`. Answers true when the window was on the active workspace and
    /// `target` exists. A window found on the active workspace leaves it even
    /// when `target` does not exist.
    pub fn move_window(&mut self, window_id: WindowId, target: u32) -> (moved: bool)
        requires
            old(self).wf(),
        ensures
            final(self).wf(),
            final(self).spec_active() == old(self).spec_active(),
            final(self).spec_output() == old(self).spec_output(),
            moved == (old(self).workspace(old(self).spec_active()).window_set().contains(window_id)
                && valid_workspace(target)),
            forall|id: u32|
                valid_workspace(id) ==> #[trigger] final(self).workspace(id).window_set()
                    == moved_set(*old(self), window_id, target, id),
            !old(self).workspace(old(self).spec_active()).window_set().contains(window_id) ==> *final(self) == *old(self),
            forall|x: u32|
                valid_workspace(x) && x != old(self).spec_active() && x != target ==> #[trigger] final(self).workspace(x)
                    == old(self).workspace(x),
    {
        let ghost old_set = *self;
        if !self.active().contains(window_id) {
            return false;
        }
        let removed = self.active_mut().remove_window(window_id);
        assert(self.wf());
        if removed {
            let ghost mid = *self;
            match self.get_mut(target) {
                Some(t) => {
                    t.add_window(window_id);
                    assert(self.wf());
                    assert forall|id: u32| valid_workspace(id) implies #[trigger] self.workspace(id).window_set()
                        == moved_set(old_set, window_id, target, id) by {
                        if id == target {
                        } else {
                            assert(self.workspace(id) == mid.workspace(id));
                        }
                    }
                    return true;
                },
                None => {},
            }
        }
        false
    }

    pub fn active_id(&self) -> (id: u32)
        ensures
            id == self.spec_active(),
    {
        self.active
    }

    /// Shows workspace `id`; an id outside 1 to 10 is ignored.
    pub fn switch_to(&mut self, id: u32)
        requires
            old(self).wf(),
        ensures
            final(self).wf(),
            final(self).spec_workspaces() == old(self).spec_workspaces(),
            final(self).spec_output() == old(self).spec_output(),
            final(self).spec_active() == (if valid_workspace(id) {
                id
            } else {
                old(self).spec_active()
            }),
    {
        if 1 <= id && id <= WORKSPACE_COUNT {
            self.active = id;
        }
    }

    /// Shows the following workspace, wrapping from 10 to 1.
    pub fn next(&mut self)
        requires
            old(self).wf(),
        ensures
            final(self).wf(),
            final(self).spec_workspaces() == old(self).spec_workspaces(),
            final(self).spec_output() == old(self).spec_output(),
            final(self).spec_active() == next_id(old(self).spec_active()),
    {
        let next = if self.active >= WORKSPACE_COUNT {
            1
        } else {
            self.active + 1
        };
        self.switch_to(next);
    }

    /// Shows the preceding workspace, wrapping from 1 to 10.
    pub fn prev(&mut self)
        requires
            old(self).wf(),
        ensures
            final(self).wf(),
            final(self).spec_workspaces() == old(self).spec_workspaces(),
            final(self).spec_output() == old(self).spec_output(),
            final(self).spec_active() == prev_id(old(self).spec_active()),
    {
        let prev = if self.active <= 1 {
            WORKSPACE_COUNT
        } else {
            self.active - 1
        };
        self.switch_to(prev);
    }

    /// All workspaces, numbered 1 to 10 in this order.
    pub fn all(&self) -> (ws: &[Workspace])
        ensures
            ws@ == self.spec_workspaces(),
    {
        self.workspaces.as_slice()
    }


    /// Adds the window to workspace `id`; an id outside 1 to 10 changes
    /// nothing.
    pub fn add_window_to(&mut self, id: u32, window_id: WindowId)
        requires
            old(self).wf(),
        ensures
            final(self).wf(),
            !valid_workspace(id) ==> *final(self) == *old(self),
            final(self).spec_active() == old(self).spec_active(),
            final(self).spec_output() == old(self).spec_output(),
            valid_workspace(id) ==> final(self).workspace(id).window_set() == old(self).workspace(id).window_set().insert(
                window_id,
            ),
            forall|x: u32| valid_workspace(x) && x != id ==> #[trigger] final(self).workspace(x) == old(self).workspace(x),
    {
        if !(1 <= id && id <= WORKSPACE_COUNT) {
            return;
        }
        let mut w = self.take_at(id);
        w.add_window(window_id);
        self.update_at(id, w);
    }

    /// Removes the window from workspace `id`, answering whether it was there;
    /// an id outside 1 to 10 changes nothing and answers `false`.
    pub fn remove_window_from(&mut self, id: u32, window_id: WindowId) -> (removed: bool)
        requires
            old(self).wf(),
        ensures
            final(self).wf(),
            !valid_workspace(id) ==> *final(self) == *old(self) && !removed,
            valid_workspace(id) ==> removed == old(self).workspace(id).window_set().contains(window_id),
            final(self).spec_active() == old(self).spec_active(),
            final(self).spec_output() == old(self).spec_output(),
            valid_workspace(id) ==> final(self).workspace(id).window_set() == old(self).workspace(id).window_set().remove(
                window_id,
            ),
            forall|x: u32| valid_workspace(x) && x != id ==> #[trigger] final(self).workspace(x) == old(self).workspace(x),
    {
        if !(1 <= id && id <= WORKSPACE_COUNT) {
            return false;
        }
        let mut w = self.take_at(id);
        let r = w.remove_window(window_id);
        self.update_at(id, w);
        r
    }

    /// Puts `w` in the place of workspace `id`.
    fn update_at(&mut self, id: u32, w: Workspace)
        requires
            old(self).wf(),
            valid_workspace(id),
            w.wf(),
            w.id == id,
        ensures
            final(self).wf(),
            final(self).spec_workspaces() == old(self).spec_workspaces().update(id - 1, w),
            final(self).spec_active() == old(self).spec_active(),
            final(self).spec_output() == old(self).spec_output(),
    {
        let idx = (id - 1) as usize;
        self.workspaces.set(idx, w);
    }

    fn take_at(&mut self, id: u32) -> (w: Workspace)
        requires
            old(self).wf(),
            valid_workspace(id),
        ensures
            w == old(self).workspace(id),
            final(self).wf(),
            final(self).spec_workspaces().len() == WORKSPACE_COUNT,
            forall|i: int| 0 <= i < WORKSPACE_COUNT && i != id - 1 ==> final(self).spec_workspaces()[i] == old(self).spec_workspaces()[i],
            final(self).spec_active() == old(self).spec_active(),
            final(self).spec_output() == old(self).spec_output(),
    {
        let idx = (id - 1) as usize;
        let mut w = Workspace::new(id);
        std::mem::swap(&mut self.workspaces[idx], &mut w);
        w
    }
}

/// Law: stepping forward and then back, or back and then forward, returns
/// to the workspace shown before.
pub proof fn lemma_step_inverse(active: u32)
    requires
        valid_workspace(active),
    ensures
        prev_id(next_id(active)) == active,
        next_id(prev_id(active)) == active,
        valid_workspace(next_id(active)),
        valid_workspace(prev_id(active)),
{
}

} // verus!
