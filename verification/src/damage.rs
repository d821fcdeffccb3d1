use vstd::prelude::*;
use crate::geometry::Rect;

verus! {

/// Beyond this many damaged rectangles the whole output is repainted.
pub const MAX_DAMAGE_RECTANGLES: usize = 10;

/// The parts of an output that changed since the last frame.
#[derive(Debug)]
pub struct DamageTracker {
    damage: Vec<Rect>,
    output_size: (i32, i32),
    full_damage: bool,
    frame_count: u64,
}

/// The rectangles of `s` that `r` does not cover, in order.
pub open spec fn uncovered_by(s: Seq<Rect>, r: Rect) -> Seq<Rect>
    decreases s.len(),
{
    if s.len() == 0 {
        s
    } else {
        let t = uncovered_by(s.drop_last(), r);
        if r.covers(s.last()) {
            t
        } else {
            t.push(s.last())
        }
    }
}

/// Some rectangle of `s` covers `r`.
pub open spec fn covered_in(s: Seq<Rect>, r: Rect) -> bool {
    exists|i: int| 0 <= i < s.len() && (#[trigger] s[i]).covers(r)
}

/// Every rectangle is non-empty and none covers another.
pub open spec fn damage_list_ok(s: Seq<Rect>) -> bool {
    &&& forall|i: int| 0 <= i < s.len() ==> (#[trigger] s[i]).size.w > 0 && s[i].size.h > 0
    &&& forall|i: int, j: int| 0 <= i < s.len() && 0 <= j < s.len() && i != j ==> !(#[trigger] s[i]).covers(#[trigger] s[j])
}

/// Law: the rectangles a tracker keeps, after any sequence of its
/// operations from `new` (each keeps `wf`), are at most ten, each non-empty,
/// none covering another, and so none twice.
pub proof fn lemma_damage_list_shape(t: DamageTracker)
    requires
        t.wf(),
    ensures
        t.spec_damage().len() <= 10,
        forall|i: int| 0 <= i < t.spec_damage().len() ==> (#[trigger] t.spec_damage()[i]).size.w > 0 && t.spec_damage()[i].size.h
            > 0,
        forall|i: int, j: int|
            0 <= i < t.spec_damage().len() && 0 <= j < t.spec_damage().len() && i != j ==> !(
            #[trigger] t.spec_damage()[i]).covers(#[trigger] t.spec_damage()[j]),
        t.spec_damage().no_duplicates(),
{
    let s = t.spec_damage();
    assert forall|i: int, j: int| 0 <= i < s.len() && 0 <= j < s.len() && i != j implies s[i] != s[j] by {
        if s[i] == s[j] {
            assert(s[i].covers(s[j]));
        }
    }
}

pub proof fn lemma_uncovered_by(s: Seq<Rect>, r: Rect)
    ensures
        uncovered_by(s, r).len() <= s.len(),
        forall|k: int| 0 <= k < uncovered_by(s, r).len() ==> s.contains(#[trigger] uncovered_by(s, r)[k]) && !r.covers(uncovered_by(s, r)[k]),
        forall|k: int| 0 <= k < s.len() && !r.covers(#[trigger] s[k]) ==> uncovered_by(s, r).contains(s[k]),
    decreases s.len(),
{
    if s.len() > 0 {
        let d = s.drop_last();
        lemma_uncovered_by(d, r);
        let t = uncovered_by(d, r);
        assert forall|k: int| 0 <= k < uncovered_by(s, r).len() implies s.contains(#[trigger] uncovered_by(s, r)[k]) && !r.covers(uncovered_by(s, r)[k]) by {
            if k < t.len() {
                assert(uncovered_by(s, r)[k] == t[k]);
                let m = choose|m: int| 0 <= m < d.len() && d[m] == t[k];
                assert(s[m] == d[m]);
            } else {
                assert(s[s.len() - 1] == s.last());
            }
        }
        assert forall|k: int| 0 <= k < s.len() && !r.covers(#[trigger] s[k]) implies uncovered_by(s, r).contains(s[k]) by {
            if k < s.len() - 1 {
                assert(d[k] == s[k]);
                let m = choose|m: int| 0 <= m < t.len() && t[m] == d[k];
                assert(uncovered_by(s, r)[m] == t[m]);
            } else {
                assert(uncovered_by(s, r)[uncovered_by(s, r).len() - 1] == s[k]);
            }
        }
    }
}

pub proof fn lemma_uncovered_nodup(s: Seq<Rect>, r: Rect)
    requires
        s.no_duplicates(),
    ensures
        uncovered_by(s, r).no_duplicates(),
    decreases s.len(),
{
    if s.len() > 0 {
        let d = s.drop_last();
        assert(d.no_duplicates());
        lemma_uncovered_nodup(d, r);
        lemma_uncovered_by(d, r);
        let t = uncovered_by(d, r);
        if !r.covers(s.last()) {
            assert forall|k: int| 0 <= k < t.len() implies t[k] != s.last() by {
                let m = choose|m: int| 0 <= m < d.len() && d[m] == t[k];
                assert(s[m] == d[m]);
                assert(s[s.len() - 1] == s.last());
            }
        }
    }
}

/// `b` is `a` after recording the damaged rectangle `rect`. An empty
/// rectangle, or one that a recorded rectangle covers, changes nothing;
/// otherwise the recorded rectangles that `rect` covers are dropped and
/// `rect` is appended; when that leaves more than ten, the oldest is
/// dropped and the whole output counts as damaged.
pub open spec fn damage_added(a: DamageTracker, b: DamageTracker, rect: Rect) -> bool {
    &&& b.spec_output_size() == a.spec_output_size()
    &&& b.spec_frame_count() == a.spec_frame_count()
    &&& (rect.size.w <= 0 || rect.size.h <= 0 || covered_in(a.spec_damage(), rect))
        ==> b.spec_damage() == a.spec_damage() && b.spec_full() == a.spec_full()
    &&& !(rect.size.w <= 0 || rect.size.h <= 0 || covered_in(a.spec_damage(), rect)) ==> {
        let kept = uncovered_by(a.spec_damage(), rect).push(rect);
        if kept.len() > MAX_DAMAGE_RECTANGLES {
            &&& b.spec_damage() == kept.drop_first()
            &&& b.spec_full()
        } else {
            &&& b.spec_damage() == kept
            &&& b.spec_full() == a.spec_full()
        }
    }
}

impl DamageTracker {
    pub closed spec fn spec_damage(&self) -> Seq<Rect> {
        self.damage@
    }

    pub closed spec fn spec_output_size(&self) -> (i32, i32) {
        self.output_size
    }

    pub closed spec fn spec_full(&self) -> bool {
        self.full_damage
    }

    pub closed spec fn spec_frame_count(&self) -> u64 {
        self.frame_count
    }

    /// At most ten rectangles, each non-empty, none covering another.
    pub open spec fn wf(&self) -> bool {
        &&& self.spec_damage().len() <= MAX_DAMAGE_RECTANGLES
        &&& damage_list_ok(self.spec_damage())
    }

    /// A tracker for an output of the given size; its first frame is
    /// damaged in full.
    pub fn new(width: i32, height: i32) -> (t: DamageTracker)
        ensures
            t.wf(),
            t.spec_damage().len() == 0,
            t.spec_output_size() == (width, height),
            t.spec_full(),
            t.spec_frame_count() == 0,
    {
        DamageTracker { damage: Vec::new(), output_size: (width, height), full_damage: true, frame_count: 0 }
    }

    /// A new size damages the whole output; the same size changes nothing.
    pub fn set_output_size(&mut self, width: i32, height: i32)
        requires
            old(self).wf(),
        ensures
            final(self).wf(),
            final(self).spec_output_size() == (width, height),
            final(self).spec_frame_count() == old(self).spec_frame_count(),
            old(self).spec_output_size() != (width, height) ==> final(self).spec_full() && final(self).spec_damage().len() == 0,
            old(self).spec_output_size() == (width, height) ==> final(self).spec_full() == old(self).spec_full()
                && final(self).spec_damage() == old(self).spec_damage(),
    {
        if self.output_size.0 != width || self.output_size.1 != height {
            self.output_size = (width, height);
            self.full_damage = true;
            self.damage.clear();
        }
    }

    /// Records a damaged rectangle. An empty rectangle, or one that a recorded
    /// rectangle covers, is ignored; recorded rectangles that the new one
    /// covers are dropped. When more than ten remain, the oldest is dropped
    /// and the whole output counts as damaged.
    pub fn add_damage(&mut self, rect: Rect)
        requires
            old(self).wf(),
        ensures
            final(self).wf(),
            damage_added(*old(self), *final(self), rect),
    {
        if rect.size.w <= 0 || rect.size.h <= 0 {
            return;
        }
        let n = self.damage.len();
        let mut i: usize = 0;
        while i < n
            invariant
                n == self.damage@.len(),
                *self == *old(self),
                old(self).wf(),
                i <= n,
                forall|k: int| 0 <= k < i ==> !(#[trigger] self.damage@[k]).covers(rect),
            decreases n - i,
        {
            if self.damage[i].contains_rect(&rect) {
                return;
            }
            i += 1;
        }
        let ghost old_list = self.damage@;
        let mut kept: Vec<Rect> = Vec::new();
        let mut j: usize = 0;
        while j < n
            invariant
                n == self.damage@.len(),
                self.damage@ == old_list,
                j <= n,
                kept@ == uncovered_by(old_list.subrange(0, j as int), rect),
            decreases n - j,
        {
            let e = self.damage[j];
            assert(old_list.subrange(0, j + 1).drop_last() =~= old_list.subrange(0, j as int));
            if !rect.contains_rect(&e) {
                kept.push(e);
            }
            j += 1;
        }
        assert(old_list.subrange(0, n as int) =~= old_list);
        proof {
            lemma_uncovered_by(old_list, rect);
            assert forall|a: int, b: int| 0 <= a < b < old_list.len() implies old_list[a] != old_list[b] by {
                assert(!old_list[a].covers(old_list[b]));
            }
            lemma_uncovered_nodup(old_list, rect);
        }
        kept.push(rect);
        let ghost pushed = kept@;
        proof {
            let u = uncovered_by(old_list, rect);
            assert forall|a: int| 0 <= a < pushed.len() implies (#[trigger] pushed[a]).size.w > 0 && pushed[a].size.h > 0 by {
                if a < u.len() {
                    let m = choose|m: int| 0 <= m < old_list.len() && old_list[m] == u[a];
                }
            }
            assert forall|a: int, b: int| 0 <= a < pushed.len() && 0 <= b < pushed.len() && a != b implies !(#[trigger] pushed[a]).covers(#[trigger] pushed[b]) by {
                if a < u.len() && b < u.len() {
                    let ma = choose|m: int| 0 <= m < old_list.len() && old_list[m] == u[a];
                    let mb = choose|m: int| 0 <= m < old_list.len() && old_list[m] == u[b];
                    assert(u[a] != u[b]);
                    assert(ma != mb);
                } else if a < u.len() {
                    let ma = choose|m: int| 0 <= m < old_list.len() && old_list[m] == u[a];
                    assert(!old_list[ma].covers(rect));
                } else if b < u.len() {
                    assert(!rect.covers(u[b]));
                }
            }
        }
        if kept.len() > MAX_DAMAGE_RECTANGLES {
            self.full_damage = true;
            let _ = kept.remove(0);
            proof {
                assert(kept@ =~= pushed.drop_first());
                assert forall|a: int, b: int| 0 <= a < kept@.len() && 0 <= b < kept@.len() && a != b implies !(#[trigger] kept@[a]).covers(#[trigger] kept@[b]) by {
                    assert(kept@[a] == pushed[a + 1] && kept@[b] == pushed[b + 1]);
                }
                assert forall|a: int| 0 <= a < kept@.len() implies (#[trigger] kept@[a]).size.w > 0 && kept@[a].size.h > 0 by {
                    assert(kept@[a] == pushed[a + 1]);
                }
            }
        }
        self.damage = kept;
    }

    /// Marks the whole output damaged and forgets the rectangles.
    pub fn add_full_damage(&mut self)
        ensures
            final(self).wf(),
            final(self).spec_full(),
            final(self).spec_damage().len() == 0,
            final(self).spec_output_size() == old(self).spec_output_size(),
            final(self).spec_frame_count() == old(self).spec_frame_count(),
    {
        self.full_damage = true;
        self.damage.clear();
    }

    /// The damaged rectangles, or none when the whole output is damaged.
    pub fn damage(&self) -> (r: Option<&Vec<Rect>>)
        ensures
            r is None <==> self.spec_full(),
            r matches Some(v) ==> v@ == self.spec_damage(),
    {
        if self.full_damage {
            None
        } else {
            Some(&self.damage)
        }
    }

    /// The regions to repaint: the whole output when it is damaged in full,
    /// else the recorded rectangles.
    pub fn damage_regions(&self) -> (r: Vec<Rect>)
        ensures
            self.spec_full() ==> r@ == seq![Rect::spec_from_size(self.spec_output_size().0, self.spec_output_size().1)],
            !self.spec_full() ==> r@ == self.spec_damage(),
    {
        if self.full_damage {
            let mut v: Vec<Rect> = Vec::new();
            v.push(Rect::from_size(self.output_size.0, self.output_size.1));
            assert(v@ =~= seq![Rect::spec_from_size(self.spec_output_size().0, self.spec_output_size().1)]);
            v
        } else {
            let mut v: Vec<Rect> = Vec::new();
            let mut i: usize = 0;
            while i < self.damage.len()
                invariant
                    i <= self.damage@.len(),
                    v@ == self.damage@.subrange(0, i as int),
                decreases self.damage.len() - i,
            {
                v.push(self.damage[i]);
                i += 1;
                assert(v@ =~= self.damage@.subrange(0, i as int));
            }
            assert(v@ =~= self.damage@);
            v
        }
    }

    /// Ends a frame: counts it and clears all damage.
    pub fn clear_damage(&mut self)
        requires
            old(self).spec_frame_count() < u64::MAX,
        ensures
            final(self).wf(),
            !final(self).spec_full(),
            final(self).spec_damage().len() == 0,
            final(self).spec_frame_count() == old(self).spec_frame_count() + 1,
            final(self).spec_output_size() == old(self).spec_output_size(),
    {
        self.frame_count += 1;
        self.full_damage = false;
        self.damage.clear();
    }

    /// Something must be repainted.
    pub fn has_damage(&self) -> (b: bool)
        ensures
            b == (self.spec_full() || self.spec_damage().len() > 0),
    {
        self.full_damage || self.damage.len() != 0
    }

    pub fn output_size(&self) -> (r: (i32, i32))
        ensures
            r == self.spec_output_size(),
    {
        self.output_size
    }

    pub fn frame_count(&self) -> (r: u64)
        ensures
            r == self.spec_frame_count(),
    {
        self.frame_count
    }
}

impl Default for DamageTracker {
    fn default() -> (t: DamageTracker)
        ensures
            t.wf(),
            t.spec_damage().len() == 0,
            t.spec_output_size() == (1920i32, 1080i32),
            t.spec_full(),
            t.spec_frame_count() == 0,
    {
        DamageTracker::new(1920, 1080)
    }
}

} // verus!
