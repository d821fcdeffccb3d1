use vstd::prelude::*;
use crate::output_id::OutputId;
use crate::window::WindowId;
use crate::workspace::{next_id, prev_id, valid_workspace, Workspace, WorkspaceSet};

verus! {

/// The workspace sets of all outputs, with the primary and the focused output.
#[derive(Debug)]
pub struct OutputWorkspaces {
    output_sets: Vec<(OutputId, WorkspaceSet)>,
    primary_output: Option<OutputId>,
    focused_output: Option<OutputId>,
}

/// A set that was just made: workspace 1 shown, no windows, owned by `output`.
pub open spec fn fresh_set(set: WorkspaceSet, output: Option<String>) -> bool {
    &&& set.wf()
    &&& set.spec_active() == 1
    &&& set.all_empty()
    &&& set.spec_output() == output
}

/// The windows of one workspace after a move: `w` leaves when the workspace
/// was the source and arrives when it is the destination.
pub open spec fn moved_sets(before: Set<WindowId>, source: bool, dest: bool, w: WindowId) -> Set<WindowId> {
    let after_removal = if source {
        before.remove(w)
    } else {
        before
    };
    if dest {
        after_removal.insert(w)
    } else {
        after_removal
    }
}

/// `b` is `a` with workspace `shown` made active and nothing else changed.
pub open spec fn same_but_active(a: WorkspaceSet, b: WorkspaceSet, shown: u32) -> bool {
    &&& b.spec_workspaces() == a.spec_workspaces()
    &&& b.spec_output() == a.spec_output()
    &&& b.spec_active() == shown
}

impl OutputWorkspaces {
    pub closed spec fn spec_entries(&self) -> Seq<(OutputId, WorkspaceSet)> {
        self.output_sets@
    }

    pub closed spec fn spec_primary(&self) -> Option<OutputId> {
        self.primary_output
    }

    pub closed spec fn spec_focused(&self) -> Option<OutputId> {
        self.focused_output
    }

    /// The output is known.
    pub open spec fn has(&self, id: OutputId) -> bool {
        exists|i: int| 0 <= i < self.spec_entries().len() && (#[trigger] self.spec_entries()[i]).0 == id
    }

    /// Where the output's entry stands (meaningful when `has(id)`).
    pub open spec fn index_of(&self, id: OutputId) -> int {
        choose|i: int| 0 <= i < self.spec_entries().len() && (#[trigger] self.spec_entries()[i]).0 == id
    }

    /// The workspace set of a known output.
    pub open spec fn set_of(&self, id: OutputId) -> WorkspaceSet {
        self.spec_entries()[self.index_of(id)].1
    }

    /// No output occurs twice.
    pub open spec fn distinct(&self) -> bool {
        forall|i: int, j: int|
            0 <= i < j < self.spec_entries().len() ==> (#[trigger] self.spec_entries()[i]).0
                != (#[trigger] self.spec_entries()[j]).0
    }

    /// Outputs are distinct, their sets well formed, and the primary and the
    /// focused output are known outputs, present exactly when some output is.
    pub open spec fn wf(&self) -> bool {
        &&& self.distinct()
        &&& forall|i: int|
            0 <= i < self.spec_entries().len() ==> (#[trigger] self.spec_entries()[i]).1.wf()
        &&& (self.spec_primary() matches Some(p) ==> self.has(p))
        &&& (self.spec_primary() is None <==> self.spec_entries().len() == 0)
        &&& (self.spec_focused() matches Some(f) ==> self.has(f))
        &&& (self.spec_focused() is None <==> self.spec_entries().len() == 0)
    }

    pub proof fn lemma_index(&self, k: int)
        requires
            self.distinct(),
            0 <= k < self.spec_entries().len(),
        ensures
            self.has(self.spec_entries()[k].0),
            self.index_of(self.spec_entries()[k].0) == k,
            self.set_of(self.spec_entries()[k].0) == self.spec_entries()[k].1,
    {
        let id = self.spec_entries()[k].0;
        assert(self.spec_entries()[k].0 == id);
        let i = self.index_of(id);
        if i != k {
            if i < k {
                assert(self.spec_entries()[i].0 != self.spec_entries()[k].0);
            } else {
                assert(self.spec_entries()[k].0 != self.spec_entries()[i].0);
            }
        }
    }

    pub fn new() -> (m: OutputWorkspaces)
        ensures
            m.wf(),
            m.spec_entries().len() == 0,
            m.spec_primary() is None,
            m.spec_focused() is None,
    {
        OutputWorkspaces { output_sets: Vec::new(), primary_output: None, focused_output: None }
    }

    fn find(&self, id: OutputId) -> (r: Option<usize>)
        requires
            self.wf(),
        ensures
            match r {
                Some(i) => i < self.spec_entries().len() && self.spec_entries()[i as int].0 == id
                    && self.index_of(id) == i && self.has(id),
                None => !self.has(id),
            },
    {
        let mut i: usize = 0;
        while i < self.output_sets.len()
            invariant
                self.wf(),
                i <= self.spec_entries().len(),
                self.spec_entries() == self.output_sets@,
                forall|j: int| 0 <= j < i ==> (#[trigger] self.spec_entries()[j]).0 != id,
            decreases self.output_sets.len() - i,
        {
            if self.output_sets[i].0 == id {
                proof {
                    self.lemma_index(i as int);
                }
                return Some(i);
            }
            i += 1;
        }
        None
    }

    /// Registers an output with a fresh workspace set, replacing the set of an
    /// output already known. The first output becomes primary and focused.
    pub fn add_output(&mut self, output_id: OutputId, output_name: Option<String>)
        requires
            old(self).wf(),
        ensures
            final(self).wf(),
            final(self).has(output_id),
            fresh_set(final(self).set_of(output_id), output_name),
            old(self).has(output_id) ==> final(self).spec_entries().len() == old(self).spec_entries().len()
                && final(self).index_of(output_id) == old(self).index_of(output_id),
            !old(self).has(output_id) ==> final(self).spec_entries().len() == old(self).spec_entries().len() + 1
                && final(self).index_of(output_id) == old(self).spec_entries().len(),
            forall|j: int|
                0 <= j < old(self).spec_entries().len() && old(self).spec_entries()[j].0 != output_id
                    ==> #[trigger] final(self).spec_entries()[j] == old(self).spec_entries()[j],
            final(self).spec_primary() == (if old(self).spec_primary() is None {
                Some(output_id)
            } else {
                old(self).spec_primary()
            }),
            final(self).spec_focused() == (if old(self).spec_primary() is None {
                Some(output_id)
            } else {
                old(self).spec_focused()
            }),
    {
        let set = match output_name {
            Some(name) => WorkspaceSet::with_output(name),
            None => WorkspaceSet::new(),
        };
        let ghost fresh = set;
        let found = self.find(output_id);
        if self.primary_output.is_none() {
            self.primary_output = Some(output_id);
            self.focused_output = Some(output_id);
        }
        match found {
            Some(i) => {
                self.output_sets.set(i, (output_id, set));
                proof {
                    assert forall|a: int, b: int|
                        0 <= a < b < self.spec_entries().len() implies (#[trigger] self.spec_entries()[a]).0
                            != (#[trigger] self.spec_entries()[b]).0 by {
                        assert(old(self).spec_entries()[a].0 != old(self).spec_entries()[b].0);
                    }
                    assert(self.spec_entries()[i as int].0 == output_id);
                    assert forall|p: OutputId| old(self).has(p) implies self.has(p) by {
                        let k = choose|k: int| 0 <= k < old(self).spec_entries().len() && (#[trigger] old(self).spec_entries()[k]).0 == p;
                        assert(self.spec_entries()[k].0 == p);
                    }
                    self.lemma_index(i as int);
                }
            },
            None => {
                self.output_sets.push((output_id, set));
                proof {
                    let n = old(self).spec_entries().len();
                    assert forall|a: int, b: int|
                        0 <= a < b < self.spec_entries().len() implies (#[trigger] self.spec_entries()[a]).0
                            != (#[trigger] self.spec_entries()[b]).0 by {
                        if b < n {
                            assert(old(self).spec_entries()[a].0 != old(self).spec_entries()[b].0);
                        } else {
                            assert(old(self).spec_entries()[a].0 != output_id);
                        }
                    }
                    assert forall|p: OutputId| old(self).has(p) implies self.has(p) by {
                        let k = choose|k: int| 0 <= k < old(self).spec_entries().len() && (#[trigger] old(self).spec_entries()[k]).0 == p;
                        assert(self.spec_entries()[k].0 == p);
                    }
                    self.lemma_index(n as int);
                }
            },
        }
    }

    /// Forgets an output. When it was primary, the first remaining output
    /// becomes primary (none if no output is left); when it was focused, the
    /// focus goes to the primary output.
    pub fn remove_output(&mut self, output_id: OutputId)
        requires
            old(self).wf(),
        ensures
            final(self).wf(),
            !final(self).has(output_id),
            old(self).has(output_id) ==> final(self).spec_entries() == old(self).spec_entries().remove(
                old(self).index_of(output_id),
            ),
            !old(self).has(output_id) ==> final(self).spec_entries() == old(self).spec_entries(),
            final(self).spec_primary() == (if old(self).spec_primary() == Some(output_id) {
                if final(self).spec_entries().len() > 0 {
                    Some(final(self).spec_entries()[0].0)
                } else {
                    None
                }
            } else {
                old(self).spec_primary()
            }),
            final(self).spec_focused() == (if old(self).spec_focused() == Some(output_id) {
                final(self).spec_primary()
            } else {
                old(self).spec_focused()
            }),
    {
        match self.find(output_id) {
            Some(i) => {
                let _ = self.output_sets.remove(i);
                proof {
                    let o = old(self).spec_entries();
                    let e = self.spec_entries();
                    assert forall|a: int, b: int| 0 <= a < b < e.len() implies (#[trigger] e[a]).0 != (#[trigger] e[b]).0 by {
                        let a2 = if a < i { a } else { a + 1 };
                        let b2 = if b < i { b } else { b + 1 };
                        assert(e[a] == o[a2]);
                        assert(e[b] == o[b2]);
                        assert(o[a2].0 != o[b2].0);
                    }
                    assert forall|k: int| 0 <= k < e.len() implies (#[trigger] e[k]).1.wf() by {
                        let k2 = if k < i { k } else { k + 1 };
                        assert(e[k] == o[k2]);
                    }
                    assert forall|p: OutputId| old(self).has(p) && p != output_id implies self.has(p) by {
                        let k = choose|k: int| 0 <= k < o.len() && (#[trigger] o[k]).0 == p;
                        if k < i {
                            assert(e[k].0 == p);
                        } else {
                            assert(k != i);
                            assert(e[k - 1].0 == p);
                        }
                    }
                    assert(!self.has(output_id)) by {
                        if self.has(output_id) {
                            let k = choose|k: int| 0 <= k < e.len() && (#[trigger] e[k]).0 == output_id;
                            let k2 = if k < i { k } else { k + 1 };
                            assert(e[k] == o[k2]);
                            assert(o[i as int].0 == output_id);
                            if k2 < i {
                                assert(o[k2].0 != o[i as int].0);
                            } else {
                                assert(o[i as int].0 != o[k2].0);
                            }
                        }
                    }
                }
            },
            None => {},
        }
        if self.primary_output == Some(output_id) {
            self.primary_output = if self.output_sets.len() > 0 {
                Some(self.output_sets[0].0)
            } else {
                None
            };
            proof {
                if self.output_sets.len() > 0 {
                    assert(self.spec_entries()[0].0 == self.output_sets@[0].0);
                }
            }
        }
        if self.focused_output == Some(output_id) {
            self.focused_output = self.primary_output;
        }
        proof {
            if self.spec_entries().len() == 0 {
                if let Some(p) = self.spec_primary() {
                    assert(old(self).spec_primary() != Some(output_id));
                    assert(self.has(p));
                }
            }
        }
    }

    /// Focuses a known output; an unknown one is ignored.
    pub fn set_focused_output(&mut self, output_id: OutputId)
        requires
            old(self).wf(),
        ensures
            final(self).wf(),
            final(self).spec_entries() == old(self).spec_entries(),
            final(self).spec_primary() == old(self).spec_primary(),
            final(self).spec_focused() == (if old(self).has(output_id) {
                Some(output_id)
            } else {
                old(self).spec_focused()
            }),
    {
        if let Some(i) = self.find(output_id) {
            self.focused_output = Some(output_id);
            assert(self.spec_entries()[i as int].0 == output_id);
        }
        proof {
            if let Some(p) = self.spec_primary() {
                let k = choose|k: int| 0 <= k < old(self).spec_entries().len() && (#[trigger] old(self).spec_entries()[k]).0 == p;
                assert(self.spec_entries()[k].0 == p);
            }
        }
    }

    pub fn focused_output(&self) -> (r: Option<OutputId>)
        ensures
            r == self.spec_focused(),
    {
        self.focused_output
    }

    pub fn primary_output(&self) -> (r: Option<OutputId>)
        ensures
            r == self.spec_primary(),
    {
        self.primary_output
    }

    pub fn has_output(&self, output_id: OutputId) -> (b: bool)
        requires
            self.wf(),
        ensures
            b == self.has(output_id),
    {
        self.find(output_id).is_some()
    }

    pub fn get(&self, output_id: OutputId) -> (r: Option<&WorkspaceSet>)
        requires
            self.wf(),
        ensures
            r is Some <==> self.has(output_id),
            r matches Some(set) ==> *set == self.set_of(output_id),
    {
        match self.find(output_id) {
            Some(i) => Some(&self.output_sets[i].1),
            None => None,
        }
    }

    /// Mutable access to the set of a known output. The caller keeps the set
    /// well formed by changing it only through its own methods.
    pub fn get_mut(&mut self, output_id: OutputId) -> (r: Option<&mut WorkspaceSet>)
        requires
            old(self).wf(),
        ensures
            r is Some <==> old(self).has(output_id),
            match r {
                Some(set) => {
                    &&& *set == old(self).set_of(output_id)
                    &&& final(self).spec_entries() == old(self).spec_entries().update(
                        old(self).index_of(output_id),
                        (output_id, *final(set)),
                    )
                    &&& final(self).spec_primary() == old(self).spec_primary()
                    &&& final(self).spec_focused() == old(self).spec_focused()
                },
                None => *final(self) == *old(self),
            },
    {
        match self.find(output_id) {
            Some(i) => Some(&mut self.output_sets[i].1),
            None => None,
        }
    }

    pub fn active_workspace(&self, output_id: OutputId) -> (r: Option<&Workspace>)
        requires
            self.wf(),
        ensures
            r is Some <==> self.has(output_id),
            r matches Some(w) ==> *w == self.set_of(output_id).workspace(
                self.set_of(output_id).spec_active(),
            ),
    {
        match self.find(output_id) {
            Some(i) => {
                proof {
                    self.lemma_index(i as int);
                }
                Some(self.output_sets[i].1.active())
            },
            None => None,
        }
    }

    pub fn active_workspace_id(&self, output_id: OutputId) -> (r: Option<u32>)
        requires
            self.wf(),
        ensures
            r is Some <==> self.has(output_id),
            r matches Some(id) ==> id == self.set_of(output_id).spec_active(),
    {
        match self.find(output_id) {
            Some(i) => Some(self.output_sets[i].1.active_id()),
            None => None,
        }
    }

    /// Two tables with the same outputs in the same places know the same outputs.
    pub proof fn lemma_same_ids(a: &Self, b: &Self)
        requires
            a.spec_entries().len() == b.spec_entries().len(),
            forall|k: int| 0 <= k < a.spec_entries().len() ==> (#[trigger] a.spec_entries()[k]).0 == b.spec_entries()[k].0,
        ensures
            forall|p: OutputId| #[trigger] a.has(p) == b.has(p),
    {
        assert forall|p: OutputId| #[trigger] a.has(p) == b.has(p) by {
            if a.has(p) {
                let k = choose|k: int| 0 <= k < a.spec_entries().len() && (#[trigger] a.spec_entries()[k]).0 == p;
                assert(b.spec_entries()[k].0 == p);
            }
            if b.has(p) {
                let k = choose|k: int| 0 <= k < b.spec_entries().len() && (#[trigger] b.spec_entries()[k]).0 == p;
                assert(a.spec_entries()[k].0 == p);
            }
        }
    }

    fn replace_at(&mut self, i: usize, set: WorkspaceSet)
        requires
            old(self).wf(),
            i < old(self).spec_entries().len(),
            set.wf(),
        ensures
            final(self).wf(),
            final(self).spec_entries() == old(self).spec_entries().update(
                i as int,
                (old(self).spec_entries()[i as int].0, set),
            ),
            final(self).spec_primary() == old(self).spec_primary(),
            final(self).spec_focused() == old(self).spec_focused(),
    {
        let id = self.output_sets[i].0;
        self.output_sets.set(i, (id, set));
        proof {
            Self::lemma_same_ids(old(self), self);
            assert forall|a: int, b: int|
                0 <= a < b < self.spec_entries().len() implies (#[trigger] self.spec_entries()[a]).0
                    != (#[trigger] self.spec_entries()[b]).0 by {
                assert(old(self).spec_entries()[a].0 != old(self).spec_entries()[b].0);
            }
        }
    }

    fn take_at(&mut self, i: usize) -> (set: WorkspaceSet)
        requires
            old(self).wf(),
            i < old(self).spec_entries().len(),
        ensures
            set == old(self).spec_entries()[i as int].1,
            final(self).wf(),
            final(self).spec_entries().len() == old(self).spec_entries().len(),
            forall|k: int| 0 <= k < old(self).spec_entries().len() ==> (#[trigger] final(self).spec_entries()[k]).0
                == old(self).spec_entries()[k].0,
            forall|k: int| 0 <= k < old(self).spec_entries().len() && k != i ==> #[trigger] final(self).spec_entries()[k]
                == old(self).spec_entries()[k],
            final(self).spec_primary() == old(self).spec_primary(),
            final(self).spec_focused() == old(self).spec_focused(),
    {
        let mut set = WorkspaceSet::new();
        std::mem::swap(&mut self.output_sets[i].1, &mut set);
        proof {
            Self::lemma_same_ids(old(self), self);
            assert forall|a: int, b: int|
                0 <= a < b < self.spec_entries().len() implies (#[trigger] self.spec_entries()[a]).0
                    != (#[trigger] self.spec_entries()[b]).0 by {
                assert(old(self).spec_entries()[a].0 != old(self).spec_entries()[b].0);
            }
        }
        set
    }

    /// Shows workspace `workspace_id` on a known output and answers true; an
    /// unknown output is left alone and false is answered.
    pub fn switch_workspace(&mut self, output_id: OutputId, workspace_id: u32) -> (r: bool)
        requires
            old(self).wf(),
        ensures
            final(self).wf(),
            r == old(self).has(output_id),
            r ==> final(self).spec_entries() == old(self).spec_entries().update(
                old(self).index_of(output_id),
                (output_id, final(self).set_of(output_id)),
            ) && final(self).index_of(output_id) == old(self).index_of(output_id)
                && same_but_active(
                old(self).set_of(output_id),
                final(self).set_of(output_id),
                if valid_workspace(workspace_id) {
                    workspace_id
                } else {
                    old(self).set_of(output_id).spec_active()
                },
            ),
            !r ==> final(self).spec_entries() == old(self).spec_entries(),
            final(self).spec_primary() == old(self).spec_primary(),
            final(self).spec_focused() == old(self).spec_focused(),
    {
        match self.find(output_id) {
            Some(i) => {
                let mut set = self.take_at(i);
                set.switch_to(workspace_id);
                self.replace_at(i, set);
                proof {
                    self.lemma_index(i as int);
                    assert(self.spec_entries() =~= old(self).spec_entries().update(i as int, (output_id, set)));
                }
                true
            },
            None => false,
        }
    }

    /// Shows workspace `workspace_id` on the focused output; false when no
    /// output is focused.
    pub fn switch_workspace_on_focused(&mut self, workspace_id: u32) -> (r: bool)
        requires
            old(self).wf(),
        ensures
            final(self).wf(),
            r == (old(self).spec_focused() is Some),
            r ==> {
                let f = old(self).spec_focused()->0;
                &&& final(self).spec_entries() == old(self).spec_entries().update(
                    old(self).index_of(f),
                    (f, final(self).set_of(f)),
                )
                &&& same_but_active(
                    old(self).set_of(f),
                    final(self).set_of(f),
                    if valid_workspace(workspace_id) {
                        workspace_id
                    } else {
                        old(self).set_of(f).spec_active()
                    },
                )
            },
            !r ==> final(self).spec_entries() == old(self).spec_entries(),
            final(self).spec_primary() == old(self).spec_primary(),
            final(self).spec_focused() == old(self).spec_focused(),
    {
        match self.focused_output {
            Some(output_id) => self.switch_workspace(output_id, workspace_id),
            None => false,
        }
    }

    /// Steps the output's active workspace forward, wrapping from 10 to 1.
    pub fn next_workspace(&mut self, output_id: OutputId)
        requires
            old(self).wf(),
        ensures
            final(self).wf(),
            old(self).has(output_id) ==> final(self).spec_entries() == old(self).spec_entries().update(
                old(self).index_of(output_id),
                (output_id, final(self).set_of(output_id)),
            ) && same_but_active(
                old(self).set_of(output_id),
                final(self).set_of(output_id),
                next_id(old(self).set_of(output_id).spec_active()),
            ),
            !old(self).has(output_id) ==> final(self).spec_entries() == old(self).spec_entries(),
            final(self).spec_primary() == old(self).spec_primary(),
            final(self).spec_focused() == old(self).spec_focused(),
    {
        match self.find(output_id) {
            Some(i) => {
                let mut set = self.take_at(i);
                set.next();
                self.replace_at(i, set);
                proof {
                    self.lemma_index(i as int);
                    assert(self.spec_entries() =~= old(self).spec_entries().update(i as int, (output_id, set)));
                }
            },
            None => {},
        }
    }

    /// Steps the output's active workspace back, wrapping from 1 to 10.
    pub fn prev_workspace(&mut self, output_id: OutputId)
        requires
            old(self).wf(),
        ensures
            final(self).wf(),
            old(self).has(output_id) ==> final(self).spec_entries() == old(self).spec_entries().update(
                old(self).index_of(output_id),
                (output_id, final(self).set_of(output_id)),
            ) && same_but_active(
                old(self).set_of(output_id),
                final(self).set_of(output_id),
                prev_id(old(self).set_of(output_id).spec_active()),
            ),
            !old(self).has(output_id) ==> final(self).spec_entries() == old(self).spec_entries(),
            final(self).spec_primary() == old(self).spec_primary(),
            final(self).spec_focused() == old(self).spec_focused(),
    {
        match self.find(output_id) {
            Some(i) => {
                let mut set = self.take_at(i);
                set.prev();
                self.replace_at(i, set);
                proof {
                    self.lemma_index(i as int);
                    assert(self.spec_entries() =~= old(self).spec_entries().update(i as int, (output_id, set)));
                }
            },
            None => {},
        }
    }

    /// All outputs with their sets.
    pub fn all_outputs(&self) -> (r: &[(OutputId, WorkspaceSet)])
        ensures
            r@ == self.spec_entries(),
    {
        self.output_sets.as_slice()
    }

    /// Workspace `ws` of the output at place `i` holds window `w`.
    pub open spec fn holds(&self, i: int, ws: u32, w: WindowId) -> bool {
        &&& 0 <= i < self.spec_entries().len()
        &&& valid_workspace(ws)
        &&& self.spec_entries()[i].1.workspace(ws).window_set().contains(w)
    }

    /// Place `i` and workspace `ws` are where a search of the outputs in order,
    /// and of each output's workspaces from 1 up, first meets window `w`.
    pub open spec fn first_holder(&self, i: int, ws: u32, w: WindowId) -> bool {
        &&& self.holds(i, ws, w)
        &&& forall|j: int, v: u32| 0 <= j < i ==> !#[trigger] self.holds(j, v, w)
        &&& forall|v: u32| v < ws ==> !#[trigger] self.holds(i, v, w)
    }

    /// Some workspace of some output holds window `w`.
    pub open spec fn held(&self, w: WindowId) -> bool {
        exists|i: int, ws: u32| #[trigger] self.holds(i, ws, w)
    }

    fn find_window(&self, window_id: WindowId) -> (r: Option<(usize, u32)>)
        requires
            self.wf(),
        ensures
            match r {
                Some((i, ws)) => self.first_holder(i as int, ws, window_id),
                None => !self.held(window_id),
            },
    {
        let mut i: usize = 0;
        while i < self.output_sets.len()
            invariant
                self.wf(),
                i <= self.spec_entries().len(),
                self.spec_entries() == self.output_sets@,
                forall|j: int, v: u32| 0 <= j < i ==> !#[trigger] self.holds(j, v, window_id),
            decreases self.output_sets.len() - i,
        {
            let set = &self.output_sets[i].1;
            let mut v: u32 = 1;
            while v <= 10
                invariant
                    self.wf(),
                    i < self.spec_entries().len(),
                    self.spec_entries() == self.output_sets@,
                    *set == self.spec_entries()[i as int].1,
                    1 <= v <= 11,
                    forall|j: int, x: u32| 0 <= j < i ==> !#[trigger] self.holds(j, x, window_id),
                    forall|x: u32| x < v ==> !#[trigger] self.holds(i as int, x, window_id),
                decreases 11 - v,
            {
                let ws = set.get(v).unwrap();
                if ws.contains(window_id) {
                    return Some((i, v));
                }
                v += 1;
            }
            assert forall|x: u32| !#[trigger] self.holds(i as int, x, window_id) by {
                if x >= 11 {
                    assert(!valid_workspace(x));
                }
            }
            i += 1;
        }
        None
    }

    /// Moves a window from the first workspace found to hold it (outputs in
    /// order, workspaces from 1 up) to workspace `target_workspace` of
    /// `target_output`, or of the same output when none is given. Answers
    /// true when the window was found and the target exists. A found window
    /// leaves its workspace even when the target does not exist.
    pub fn move_window_to_workspace(
        &mut self,
        window_id: WindowId,
        target_workspace: u32,
        target_output: Option<OutputId>,
    ) -> (moved: bool)
        requires
            old(self).wf(),
        ensures
            final(self).wf(),
            final(self).spec_primary() == old(self).spec_primary(),
            final(self).spec_focused() == old(self).spec_focused(),
            final(self).spec_entries().len() == old(self).spec_entries().len(),
            forall|k: int| 0 <= k < old(self).spec_entries().len() ==> {
                &&& (#[trigger] final(self).spec_entries()[k]).0 == old(self).spec_entries()[k].0
                &&& final(self).spec_entries()[k].1.spec_active() == old(self).spec_entries()[k].1.spec_active()
                &&& final(self).spec_entries()[k].1.spec_output() == old(self).spec_entries()[k].1.spec_output()
            },
            !old(self).held(window_id) ==> !moved && final(self).spec_entries() == old(self).spec_entries(),
            forall|i: int, ws: u32| #[trigger] old(self).first_holder(i, ws, window_id) ==> {
                let dest = match target_output {
                    Some(t) => t,
                    None => old(self).spec_entries()[i].0,
                };
                &&& moved == (old(self).has(dest) && valid_workspace(target_workspace))
                &&& forall|k: int, x: u32|
                    0 <= k < old(self).spec_entries().len() && valid_workspace(x) ==> #[trigger] final(self).spec_entries()[k].1.workspace(x).window_set() == moved_sets(
                        old(self).spec_entries()[k].1.workspace(x).window_set(),
                        k == i && x == ws,
                        moved && old(self).spec_entries()[k].0 == dest && x == target_workspace,
                        window_id,
                    )
                &&& forall|k: int, x: u32|
                    0 <= k < old(self).spec_entries().len() && valid_workspace(x) && !(k == i && x == ws) && !(moved
                    && old(self).spec_entries()[k].0 == dest && x == target_workspace)
                    ==> #[trigger] final(self).spec_entries()[k].1.workspace(x) == old(self).spec_entries()[k].1.workspace(x)
            },
    {
        match self.find_window(window_id) {
            None => false,
            Some((i, ws)) => {
                let src_output = self.output_sets[i].0;
                let ghost o = *old(self);
                let mut src = self.take_at(i);
                let _ = src.remove_window_from(ws, window_id);
                self.replace_at(i, src);
                let ghost mid = *self;
                let dest = match target_output {
                    Some(t) => t,
                    None => src_output,
                };
                proof {
                    Self::lemma_same_ids(&o, self);
                }
                let mut moved = false;
                match self.find(dest) {
                    Some(d) => {
                        if 1 <= target_workspace && target_workspace <= 10 {
                            let mut dset = self.take_at(d);
                            dset.add_window_to(target_workspace, window_id);
                            self.replace_at(d, dset);
                            moved = true;
                        }
                    },
                    None => {},
                }
                proof {
                    Self::lemma_same_ids(&o, self);
                    assert forall|i2: int, ws2: u32| #[trigger] o.first_holder(i2, ws2, window_id) implies i2 == i && ws2 == ws by {
                        if i2 < i {
                            assert(!o.holds(i2, ws2, window_id));
                        } else if i < i2 {
                            assert(!o.holds(i as int, ws, window_id));
                        } else if ws2 < ws {
                            assert(!o.holds(i as int, ws2, window_id));
                        } else if ws < ws2 {
                            assert(!o.holds(i2, ws, window_id));
                        }
                    }
                    assert forall|k: int, x: u32|
                        0 <= k < o.spec_entries().len() && valid_workspace(x) implies #[trigger] self.spec_entries()[k].1.workspace(x).window_set()
                            == moved_sets(
                            o.spec_entries()[k].1.workspace(x).window_set(),
                            k == i && x == ws,
                            moved && o.spec_entries()[k].0 == dest && x == target_workspace,
                            window_id,
                        ) by {
                        if moved {
                            let d = o.index_of(dest);
                            if k == d {
                                assert(o.spec_entries()[k].0 == dest);
                            } else {
                                assert(o.spec_entries()[k].0 != dest) by {
                                    if o.spec_entries()[k].0 == dest {
                                        o.lemma_index(k);
                                    }
                                }
                                assert(self.spec_entries()[k] == mid.spec_entries()[k]);
                            }
                        } else {
                            if o.spec_entries()[k].0 == dest && x == target_workspace {
                            }
                        }
                    }
                    assert forall|k: int, x: u32|
                        0 <= k < o.spec_entries().len() && valid_workspace(x) && !(k == i && x == ws) && !(moved
                        && o.spec_entries()[k].0 == dest && x == target_workspace) implies #[trigger] self.spec_entries()[k].1.workspace(
                            x,
                        ) == o.spec_entries()[k].1.workspace(x) by {
                        if k == i {
                            assert(mid.spec_entries()[k].1.workspace(x) == o.spec_entries()[k].1.workspace(x));
                        } else {
                            assert(mid.spec_entries()[k] == o.spec_entries()[k]);
                        }
                        if moved {
                            let d = o.index_of(dest);
                            if k == d {
                                assert(o.spec_entries()[k].0 == dest);
                            } else {
                                assert(o.spec_entries()[k].0 != dest) by {
                                    if o.spec_entries()[k].0 == dest {
                                        o.lemma_index(k);
                                    }
                                }
                                assert(self.spec_entries()[k] == mid.spec_entries()[k]);
                            }
                        }
                    }
                    if moved {
                        assert(o.has(dest));
                    } else {
                        if o.has(dest) && valid_workspace(target_workspace) {
                            let k = choose|k: int| 0 <= k < o.spec_entries().len() && (#[trigger] o.spec_entries()[k]).0 == dest;
                            assert(mid.spec_entries()[k].0 == dest);
                        }
                    }
                }
                moved
            },
        }
    }

    /// The windows of workspace `workspace_id` of a known output.
    pub fn get_workspace_windows(&self, output_id: OutputId, workspace_id: u32) -> (r: Option<Vec<WindowId>>)
        requires
            self.wf(),
        ensures
            r is Some <==> self.has(output_id) && valid_workspace(workspace_id),
            r matches Some(v) ==> v@ == self.set_of(output_id).workspace(workspace_id).windows@,
    {
        match self.get(output_id) {
            Some(set) => match set.get(workspace_id) {
                Some(ws) => Some(ws.windows.clone()),
                None => None,
            },
            None => None,
        }
    }

    /// The windows of the workspace shown on a known output; empty otherwise.
    pub fn get_visible_windows(&self, output_id: OutputId) -> (r: Vec<WindowId>)
        requires
            self.wf(),
        ensures
            self.has(output_id) ==> r@ == self.set_of(output_id).workspace(
                self.set_of(output_id).spec_active(),
            ).windows@,
            !self.has(output_id) ==> r@.len() == 0,
    {
        match self.active_workspace(output_id) {
            Some(ws) => ws.windows.clone(),
            None => Vec::new(),
        }
    }

    /// For every output, in order, the windows of the workspace it shows.
    pub fn get_all_visible_windows(&self) -> (r: Vec<(OutputId, Vec<WindowId>)>)
        requires
            self.wf(),
        ensures
            r@.len() == self.spec_entries().len(),
            forall|k: int|
                0 <= k < r@.len() ==> (#[trigger] r@[k]).0 == self.spec_entries()[k].0 && r@[k].1@
                    == self.spec_entries()[k].1.workspace(self.spec_entries()[k].1.spec_active()).windows@,
    {
        let mut r: Vec<(OutputId, Vec<WindowId>)> = Vec::new();
        let mut i: usize = 0;
        while i < self.output_sets.len()
            invariant
                self.wf(),
                i <= self.spec_entries().len(),
                self.spec_entries() == self.output_sets@,
                r@.len() == i,
                forall|k: int|
                    0 <= k < i ==> (#[trigger] r@[k]).0 == self.spec_entries()[k].0 && r@[k].1@
                        == self.spec_entries()[k].1.workspace(self.spec_entries()[k].1.spec_active()).windows@,
            decreases self.output_sets.len() - i,
        {
            let id = self.output_sets[i].0;
            let windows = self.output_sets[i].1.active().windows.clone();
            r.push((id, windows));
            i += 1;
        }
        r
    }
}

} // verus!
