use vstd::prelude::*;
use crate::geometry::{fits_i32, tdiv, Point, Rect, Size};
use crate::window::{WindowFlags, WindowId};

verus! {

/// How the tiled windows of a workspace are placed.
#[derive(Clone, Copy, Debug, PartialEq, Eq, Structural)]
pub enum LayoutMode {
    Dwindle,
    MasterStack,
    Floating,
}

impl Default for LayoutMode {
    fn default() -> (m: LayoutMode)
        ensures
            m == LayoutMode::Dwindle,
    {
        LayoutMode::Dwindle
    }
}

/// A rectangle in unbounded integers: x, y, width, height.
pub type Area = (int, int, int, int);

pub open spec fn area_of(r: Rect) -> Area {
    (r.loc.x as int, r.loc.y as int, r.size.w as int, r.size.h as int)
}

pub open spec fn area_fits(a: Area) -> bool {
    fits_i32(a.0) && fits_i32(a.1) && fits_i32(a.2) && fits_i32(a.3)
}

/// Splits `a` side by side: the left part gets half the width less half the
/// gap, the right part the rest after the gap.
pub open spec fn split_columns(a: Area, g: int) -> (Area, Area) {
    let lw = tdiv(a.2, 2) - tdiv(g, 2);
    let rw = a.2 - lw - g;
    ((a.0, a.1, lw, a.3), (a.0 + lw + g, a.1, rw, a.3))
}

/// Splits `a` one above the other, in the same way along the height.
pub open spec fn split_rows(a: Area, g: int) -> (Area, Area) {
    let th = tdiv(a.3, 2) - tdiv(g, 2);
    let bh = a.3 - th - g;
    ((a.0, a.1, a.2, th), (a.0, a.1 + th + g, a.2, bh))
}

/// The two halves that `n` windows split `a` into: side by side for an even
/// count, one above the other for an odd count.
pub open spec fn dwindle_split(n: nat, a: Area, g: int) -> (Area, Area) {
    if n % 2 == 0 {
        split_columns(a, g)
    } else {
        split_rows(a, g)
    }
}

/// The dwindle tiling of `n` windows over `a` with inner gap `g`: one window
/// takes the whole area; more windows are halved, the first half of them
/// (rounded down) tiling the first part and the rest the second.
pub open spec fn dwindle(n: nat, a: Area, g: int) -> Seq<Area>
    decreases n,
{
    if n == 0 {
        Seq::empty()
    } else if n == 1 {
        seq![a]
    } else {
        let (first, second) = dwindle_split(n, a, g);
        dwindle(n / 2, first, g) + dwindle((n - n / 2) as nat, second, g)
    }
}

/// Every value that the dwindle tiling of `n` windows over `a` computes fits
/// in an `i32`, so the computation does not overflow.
pub open spec fn dwindle_in_range(n: nat, a: Area, g: int) -> bool
    decreases n,
{
    &&& area_fits(a)
    &&& fits_i32(g)
    &&& (n >= 2 ==> {
        let (first, second) = dwindle_split(n, a, g);
        &&& area_fits(first)
        &&& area_fits(second)
        &&& fits_i32(a.0 + tdiv(a.2, 2) - tdiv(g, 2))
        &&& fits_i32(a.1 + tdiv(a.3, 2) - tdiv(g, 2))
        &&& fits_i32(a.2 - (tdiv(a.2, 2) - tdiv(g, 2)))
        &&& fits_i32(a.3 - (tdiv(a.3, 2) - tdiv(g, 2)))
        &&& dwindle_in_range(n / 2, first, g)
        &&& dwindle_in_range((n - n / 2) as nat, second, g)
    })
}

/// Window `ids[k]` paired with area `areas[k]`, for every `k`.
pub open spec fn placed(out: Seq<(WindowId, Rect)>, ids: Seq<WindowId>, areas: Seq<Area>) -> bool {
    &&& out.len() == ids.len()
    &&& ids.len() == areas.len()
    &&& forall|k: int| 0 <= k < out.len() ==> (#[trigger] out[k]).0 == ids[k] && area_of(out[k].1) == areas[k]
}

fn rect_of_area(x: i32, y: i32, w: i32, h: i32) -> (r: Rect)
    ensures
        area_of(r) == (x as int, y as int, w as int, h as int),
{
    Rect::new(x, y, w, h)
}

/// Appends the dwindle tiling of `ids[lo..hi]` over `available` to `out`.
fn dwindle_into(
    ids: &Vec<WindowId>,
    lo: usize,
    hi: usize,
    available: Rect,
    gaps_inner: i32,
    out: &mut Vec<(WindowId, Rect)>,
)
    requires
        lo <= hi <= ids@.len(),
        dwindle_in_range((hi - lo) as nat, area_of(available), gaps_inner as int),
    ensures
        final(out)@.len() == old(out)@.len() + (hi - lo),
        forall|k: int| 0 <= k < old(out)@.len() ==> #[trigger] final(out)@[k] == old(out)@[k],
        placed(
            final(out)@.subrange(old(out)@.len() as int, final(out)@.len() as int),
            ids@.subrange(lo as int, hi as int),
            dwindle((hi - lo) as nat, area_of(available), gaps_inner as int),
        ),
    decreases hi - lo,
{
    let n = hi - lo;
    let ghost a = area_of(available);
    let ghost g = gaps_inner as int;
    if n == 0 {
        assert(final(out)@.subrange(old(out)@.len() as int, final(out)@.len() as int) =~= Seq::<(WindowId, Rect)>::empty());
        return;
    }
    if n == 1 {
        out.push((ids[lo], available));
        proof {
            let s = out@.subrange(old(out)@.len() as int, out@.len() as int);
            assert(s.len() == 1);
            assert(s[0] == out@[old(out)@.len() as int]);
            assert(ids@.subrange(lo as int, hi as int)[0] == ids@[lo as int]);
        }
        return;
    }
    let mid = n / 2;
    let horizontal = n % 2 == 0;
    let (first, second) = if horizontal {
        let left_width = available.size.w / 2 - gaps_inner / 2;
        let right_width = available.size.w - left_width - gaps_inner;
        let left = rect_of_area(available.loc.x, available.loc.y, left_width, available.size.h);
        let right = rect_of_area(
            available.loc.x + left_width + gaps_inner,
            available.loc.y,
            right_width,
            available.size.h,
        );
        (left, right)
    } else {
        let top_height = available.size.h / 2 - gaps_inner / 2;
        let bottom_height = available.size.h - top_height - gaps_inner;
        let top = rect_of_area(available.loc.x, available.loc.y, available.size.w, top_height);
        let bottom = rect_of_area(
            available.loc.x,
            available.loc.y + top_height + gaps_inner,
            available.size.w,
            bottom_height,
        );
        (top, bottom)
    };
    assert((area_of(first), area_of(second)) == dwindle_split(n as nat, a, g));
    let ghost before = out@;
    dwindle_into(ids, lo, lo + mid, first, gaps_inner, out);
    let ghost between = out@;
    dwindle_into(ids, lo + mid, hi, second, gaps_inner, out);
    proof {
        let d1 = dwindle(mid as nat, area_of(first), g);
        let d2 = dwindle((n - mid) as nat, area_of(second), g);
        assert(dwindle(n as nat, a, g) == d1 + d2);
        let s = out@.subrange(before.len() as int, out@.len() as int);
        let s1 = between.subrange(before.len() as int, between.len() as int);
        let s2 = out@.subrange(between.len() as int, out@.len() as int);
        let i1 = ids@.subrange(lo as int, (lo + mid) as int);
        let i2 = ids@.subrange((lo + mid) as int, hi as int);
        assert(ids@.subrange(lo as int, hi as int) =~= i1 + i2);
        assert forall|k: int| 0 <= k < s.len() implies (#[trigger] s[k]).0 == (i1 + i2)[k] && area_of(s[k].1) == (d1 + d2)[k] by {
            if k < mid {
                assert(s[k] == out@[before.len() + k]);
                assert(out@[before.len() + k] == between[before.len() + k]);
                assert(s1[k] == between[before.len() + k]);
            } else {
                assert(s[k] == s2[k - mid]);
            }
        }
        assert forall|k: int| 0 <= k < before.len() implies #[trigger] out@[k] == before[k] by {
            assert(out@[k] == between[k]);
        }
    }
}


/// The master-stack tiling of `n` windows over `a`: the first window takes a
/// column of width `m` less half the gap on the left; the others share the
/// rest of the width, stacked top to bottom in rows of equal height.
pub open spec fn master_stack(n: nat, a: Area, g: int, m: int) -> Seq<Area> {
    if n == 0 {
        Seq::empty()
    } else if n == 1 {
        seq![a]
    } else {
        let mw = m - tdiv(g, 2);
        let sw = a.2 - mw - g;
        let k = n - 1;
        let sh = tdiv(a.3 - (k - 1) * g, k);
        seq![(a.0, a.1, mw, a.3)] + Seq::new(
            (n - 1) as nat,
            |i: int| (a.0 + mw + g, a.1 + row_offset(i, sh + g), sw, sh),
        )
    }
}

/// How far the `i`th stacked window lies below the first.
pub open spec fn row_offset(i: int, step: int) -> int {
    i * step
}

/// Every value that the master-stack tiling computes fits in an `i32`.
pub open spec fn master_stack_in_range(n: nat, a: Area, g: int, m: int) -> bool {
    &&& area_fits(a)
    &&& fits_i32(g)
    &&& fits_i32(m)
    &&& (n >= 2 ==> {
        let mw = m - tdiv(g, 2);
        let k = n - 1;
        let sh = tdiv(a.3 - (k - 1) * g, k);
        &&& k <= i32::MAX
        &&& fits_i32(mw)
        &&& fits_i32(a.2 - mw)
        &&& fits_i32(a.2 - mw - g)
        &&& fits_i32((k - 1) * g)
        &&& fits_i32(a.3 - (k - 1) * g)
        &&& fits_i32(sh + g)
        &&& fits_i32(a.0 + mw)
        &&& fits_i32(a.0 + mw + g)
        &&& forall|i: int| 0 <= i < k ==> fits_i32(#[trigger] row_offset(i, sh + g)) && fits_i32(a.1 + row_offset(i, sh + g))
    })
}

fn master_stack_into(
    ids: &Vec<WindowId>,
    available: Rect,
    gaps_inner: i32,
    master_extent: i32,
    out: &mut Vec<(WindowId, Rect)>,
)
    requires
        old(out)@.len() == 0,
        master_stack_in_range(ids@.len(), area_of(available), gaps_inner as int, master_extent as int),
    ensures
        placed(
            final(out)@,
            ids@,
            master_stack(ids@.len(), area_of(available), gaps_inner as int, master_extent as int),
        ),
{
    let n = ids.len();
    let ghost a = area_of(available);
    let ghost g = gaps_inner as int;
    let ghost spec_tiles = master_stack(n as nat, a, g, master_extent as int);
    if n == 0 {
        return;
    }
    if n == 1 {
        out.push((ids[0], available));
        return;
    }
    let master_width = master_extent - gaps_inner / 2;
    let stack_width = available.size.w - master_width - gaps_inner;
    let master_rect = rect_of_area(available.loc.x, available.loc.y, master_width, available.size.h);
    out.push((ids[0], master_rect));
    let stack_count = n - 1;
    let count = stack_count as i32;
    let stack_height = (available.size.h - (count - 1) * gaps_inner) / count;
    let stack_x = available.loc.x + master_width + gaps_inner;
    let mut i: usize = 0;
    while i < stack_count
        invariant
            n == ids@.len(),
            n >= 2,
            stack_count == n - 1,
            count as int == stack_count as int,
            i <= stack_count,
            out@.len() == i + 1,
            spec_tiles == master_stack(n as nat, a, g, master_extent as int),
            master_stack_in_range(n as nat, a, g, master_extent as int),
            a == area_of(available),
            g == gaps_inner as int,
            master_width as int == master_extent - tdiv(g, 2),
            stack_width as int == a.2 - master_width - g,
            stack_height as int == tdiv(a.3 - (count - 1) * g, count as int),
            stack_x as int == a.0 + master_width + g,
            forall|k: int| 0 <= k < out@.len() ==> (#[trigger] out@[k]).0 == ids@[k] && area_of(out@[k].1) == spec_tiles[k],
        decreases stack_count - i,
    {
        let step = stack_height + gaps_inner;
        assert(fits_i32(row_offset(i as int, step as int)));
        let offset = (i as i32) * step;
        let y = available.loc.y + offset;
        let rect = rect_of_area(stack_x, y, stack_width, stack_height);
        out.push((ids[i + 1], rect));
        i += 1;
    }
}

fn fits_i32_exec(v: i64) -> (b: bool)
    ensures
        b == fits_i32(v as int),
{
    -2147483648i64 <= v && v <= 2147483647i64
}

/// Whether the dwindle tiling of `n` windows over `a` with gap `g` stays in
/// `i32` range.
pub fn dwindle_fits(n: usize, a: (i64, i64, i64, i64), g: i64) -> (r: bool)
    ensures
        r == dwindle_in_range(n as nat, (a.0 as int, a.1 as int, a.2 as int, a.3 as int), g as int),
    decreases n,
{
    let ghost sa: Area = (a.0 as int, a.1 as int, a.2 as int, a.3 as int);
    if !(fits_i32_exec(a.0) && fits_i32_exec(a.1) && fits_i32_exec(a.2) && fits_i32_exec(a.3) && fits_i32_exec(g)) {
        return false;
    }
    if n < 2 {
        return true;
    }
    let lw = a.2 / 2 - g / 2;
    let th = a.3 / 2 - g / 2;
    let x_mid = a.0 + a.2 / 2 - g / 2;
    let y_mid = a.1 + a.3 / 2 - g / 2;
    let rw = a.2 - lw;
    let bh = a.3 - th;
    assert(lw == tdiv(a.2 as int, 2) - tdiv(g as int, 2));
    assert(th == tdiv(a.3 as int, 2) - tdiv(g as int, 2));
    let (first, second) = if n % 2 == 0 {
        ((a.0, a.1, lw, a.3), (a.0 + lw + g, a.1, a.2 - lw - g, a.3))
    } else {
        ((a.0, a.1, a.2, th), (a.0, a.1 + th + g, a.2, a.3 - th - g))
    };
    let ghost (sf, ss) = dwindle_split(n as nat, sa, g as int);
    assert(sf == (first.0 as int, first.1 as int, first.2 as int, first.3 as int));
    assert(ss == (second.0 as int, second.1 as int, second.2 as int, second.3 as int));
    let here = fits_i32_exec(first.0) && fits_i32_exec(first.1) && fits_i32_exec(first.2) && fits_i32_exec(first.3)
        && fits_i32_exec(second.0) && fits_i32_exec(second.1) && fits_i32_exec(second.2) && fits_i32_exec(second.3)
        && fits_i32_exec(x_mid) && fits_i32_exec(y_mid) && fits_i32_exec(rw) && fits_i32_exec(bh);
    if !here {
        return false;
    }
    dwindle_fits(n / 2, first, g) && dwindle_fits(n - n / 2, second, g)
}

proof fn lemma_linear_between(i: int, k: int, step: int, base: int)
    requires
        0 <= i < k,
        fits_i32(base),
        fits_i32((k - 1) * step),
        fits_i32(base + (k - 1) * step),
    ensures
        fits_i32(row_offset(i, step)),
        fits_i32(base + row_offset(i, step)),
{
    assert(step >= 0 ==> 0 <= i * step <= (k - 1) * step) by (nonlinear_arith)
        requires
            0 <= i < k,
    ;
    assert(step < 0 ==> (k - 1) * step <= i * step <= 0) by (nonlinear_arith)
        requires
            0 <= i < k,
    ;
}

/// Whether the master-stack tiling of `n` windows over `a` stays in `i32`
/// range.
pub fn master_stack_fits(n: usize, a: (i64, i64, i64, i64), g: i64, m: i64) -> (r: bool)
    ensures
        r == master_stack_in_range(n as nat, (a.0 as int, a.1 as int, a.2 as int, a.3 as int), g as int, m as int),
{
    if !(fits_i32_exec(a.0) && fits_i32_exec(a.1) && fits_i32_exec(a.2) && fits_i32_exec(a.3) && fits_i32_exec(g)
        && fits_i32_exec(m)) {
        return false;
    }
    if n < 2 {
        return true;
    }
    if n - 1 > 2147483647usize {
        return false;
    }
    let k = (n - 1) as i64;
    let mw = m - g / 2;
    assert(-0x4000_0000_0000_0000 < (k - 1) * g < 0x4000_0000_0000_0000) by (nonlinear_arith)
        requires
            0 <= k - 1 < 0x8000_0000,
            -0x8000_0000 <= g < 0x8000_0000,
    ;
    let kg = (k - 1) * g;
    let rest = a.3 - kg;
    if !(fits_i32_exec(mw) && fits_i32_exec(a.2 - mw) && fits_i32_exec(a.2 - mw - g) && fits_i32_exec(kg)
        && fits_i32_exec(rest)) {
        return false;
    }
    let sh = rest / k;
    assert(sh == tdiv(a.3 - (k - 1) * g, k as int));
    let step = sh + g;
    if !(fits_i32_exec(step) && fits_i32_exec(a.0 + mw) && fits_i32_exec(a.0 + mw + g)) {
        return false;
    }
    assert(-0x4000_0000_0000_0000 < (k - 1) * step < 0x4000_0000_0000_0000) by (nonlinear_arith)
        requires
            0 <= k - 1 < 0x8000_0000,
            -0x8000_0000 <= step < 0x8000_0000,
    ;
    let last = (k - 1) * step;
    assert(last == row_offset(k - 1, step as int));
    let ok = fits_i32_exec(last) && fits_i32_exec(a.1 + last);
    proof {
        if ok {
            assert forall|i: int| 0 <= i < k implies fits_i32(#[trigger] row_offset(i, step as int)) && fits_i32(
                a.1 + row_offset(i, step as int),
            ) by {
                lemma_linear_between(i, k as int, step as int, a.1 as int);
            }
        } else {
            assert(!(fits_i32(row_offset(k - 1, step as int)) && fits_i32(a.1 + row_offset(k - 1, step as int))));
        }
    }
    ok
}

/// What the layout needs to know of one window.
#[derive(Clone, Copy, Debug, PartialEq, Eq, Structural)]
pub struct LayoutWindow {
    pub id: WindowId,
    pub flags: WindowFlags,
    pub geometry: Rect,
}

/// A window takes part in tiling unless it floats or is fullscreen.
pub open spec fn is_tiled(w: LayoutWindow) -> bool {
    !w.flags.floating && !w.flags.fullscreen
}

/// The windows of `s` that take part in tiling, in order.
pub open spec fn tiled(s: Seq<LayoutWindow>) -> Seq<LayoutWindow>
    decreases s.len(),
{
    if s.len() == 0 {
        s
    } else {
        let t = tiled(s.drop_last());
        if is_tiled(s.last()) {
            t.push(s.last())
        } else {
            t
        }
    }
}

pub open spec fn ids_of(s: Seq<LayoutWindow>) -> Seq<WindowId> {
    s.map_values(|w: LayoutWindow| w.id)
}

/// The placement engine: a default mode, per-workspace modes and gaps.
#[derive(Debug)]
pub struct LayoutEngine {
    pub mode: LayoutMode,
    pub gaps_inner: i32,
    pub gaps_outer: i32,
    /// Modes given to single workspaces; no workspace occurs twice.
    pub workspace_layouts: Vec<(u32, LayoutMode)>,
}

/// The area that tiles an output: the output less the outer gap on each side.
pub open spec fn available_area(gaps_outer: int, output: Size) -> Area {
    (gaps_outer, gaps_outer, output.w - gaps_outer * 2, output.h - gaps_outer * 2)
}

impl LayoutEngine {
    pub open spec fn spec_overrides(&self) -> Seq<(u32, LayoutMode)> {
        self.workspace_layouts@
    }

    pub open spec fn spec_mode(&self) -> LayoutMode {
        self.mode
    }

    pub open spec fn spec_gaps_inner(&self) -> i32 {
        self.gaps_inner
    }

    pub open spec fn spec_gaps_outer(&self) -> i32 {
        self.gaps_outer
    }

    /// No workspace has two modes of its own.
    pub open spec fn wf(&self) -> bool {
        forall|i: int, j: int|
            0 <= i < j < self.spec_overrides().len() ==> (#[trigger] self.spec_overrides()[i]).0
                != (#[trigger] self.spec_overrides()[j]).0
    }

    /// The modes set for single workspaces.
    pub open spec fn overrides(&self) -> Map<u32, LayoutMode> {
        Map::new(
            |w: u32| exists|i: int| 0 <= i < self.spec_overrides().len() && (#[trigger] self.spec_overrides()[i]).0 == w,
            |w: u32| {
                let i = choose|i: int| 0 <= i < self.spec_overrides().len() && (#[trigger] self.spec_overrides()[i]).0 == w;
                self.spec_overrides()[i].1
            },
        )
    }

    /// The mode that workspace `w` is laid out in.
    pub open spec fn layout_for(&self, w: u32) -> LayoutMode {
        if self.overrides().contains_key(w) {
            self.overrides()[w]
        } else {
            self.spec_mode()
        }
    }

    pub fn new() -> (e: LayoutEngine)
        ensures
            e.wf(),
            e.mode == LayoutMode::Dwindle,
            e.gaps_inner == 8,
            e.gaps_outer == 12,
            e.overrides() == Map::<u32, LayoutMode>::empty(),
    {
        let e = LayoutEngine { mode: LayoutMode::Dwindle, gaps_inner: 8, gaps_outer: 12, workspace_layouts: Vec::new() };
        assert(e.overrides() =~= Map::<u32, LayoutMode>::empty());
        e
    }

    /// Gives workspace `workspace` a mode of its own.
    pub fn set_workspace_layout(&mut self, workspace: u32, mode: LayoutMode)
        requires
            old(self).wf(),
        ensures
            final(self).wf(),
            final(self).overrides() == old(self).overrides().insert(workspace, mode),
            final(self).mode == old(self).mode,
            final(self).gaps_inner == old(self).gaps_inner,
            final(self).gaps_outer == old(self).gaps_outer,
    {
        let mut i: usize = 0;
        while i < self.workspace_layouts.len()
            invariant
                i <= self.spec_overrides().len(),
                old(self).wf(),
                self.spec_overrides() == old(self).spec_overrides(),
                *self == *old(self),
                forall|j: int| 0 <= j < i ==> (#[trigger] self.spec_overrides()[j]).0 != workspace,
            decreases self.workspace_layouts.len() - i,
        {
            if self.workspace_layouts[i].0 == workspace {
                self.workspace_layouts.set(i, (workspace, mode));
                proof {
                    let o = old(self).spec_overrides();
                    let e = self.spec_overrides();
                    assert forall|a: int, b: int| 0 <= a < b < e.len() implies (#[trigger] e[a]).0 != (#[trigger] e[b]).0 by {
                        assert(o[a].0 != o[b].0);
                    }
                    assert forall|w: u32| #[trigger] self.overrides().contains_key(w) == old(self).overrides().insert(workspace, mode).contains_key(w) by {
                        if old(self).overrides().contains_key(w) {
                            let k = choose|k: int| 0 <= k < o.len() && (#[trigger] o[k]).0 == w;
                            assert(e[k].0 == w);
                        }
                        if self.overrides().contains_key(w) {
                            let k = choose|k: int| 0 <= k < e.len() && (#[trigger] e[k]).0 == w;
                            assert(o[k].0 == w);
                        }
                        assert(e[i as int].0 == workspace);
                    }
                    assert forall|w: u32| #[trigger] self.overrides().contains_key(w) implies self.overrides()[w] == old(self).overrides().insert(workspace, mode)[w] by {
                        let k = choose|k: int| 0 <= k < e.len() && (#[trigger] e[k]).0 == w;
                        if w == workspace {
                            if k != i {
                                if k < i {
                                    assert(e[k].0 != e[i as int].0);
                                } else {
                                    assert(e[i as int].0 != e[k].0);
                                }
                            }
                        } else {
                            let k2 = choose|k2: int| 0 <= k2 < o.len() && (#[trigger] o[k2]).0 == w;
                            assert(o[k].0 == w);
                            if k != k2 {
                                if k < k2 {
                                    assert(o[k].0 != o[k2].0);
                                } else {
                                    assert(o[k2].0 != o[k].0);
                                }
                            }
                        }
                    }
                    assert(self.overrides() =~= old(self).overrides().insert(workspace, mode));
                }
                return;
            }
            i += 1;
        }
        self.workspace_layouts.push((workspace, mode));
        proof {
            let o = old(self).spec_overrides();
            let e = self.spec_overrides();
            let n = o.len();
            assert forall|a: int, b: int| 0 <= a < b < e.len() implies (#[trigger] e[a]).0 != (#[trigger] e[b]).0 by {
                if b < n {
                    assert(o[a].0 != o[b].0);
                }
            }
            assert forall|w: u32| #[trigger] self.overrides().contains_key(w) == old(self).overrides().insert(workspace, mode).contains_key(w) by {
                if old(self).overrides().contains_key(w) {
                    let k = choose|k: int| 0 <= k < o.len() && (#[trigger] o[k]).0 == w;
                    assert(e[k].0 == w);
                }
                if self.overrides().contains_key(w) {
                    let k = choose|k: int| 0 <= k < e.len() && (#[trigger] e[k]).0 == w;
                    if k < n {
                        assert(o[k].0 == w);
                    }
                }
                assert(e[n as int].0 == workspace);
            }
            assert forall|w: u32| #[trigger] self.overrides().contains_key(w) implies self.overrides()[w] == old(self).overrides().insert(workspace, mode)[w] by {
                let k = choose|k: int| 0 <= k < e.len() && (#[trigger] e[k]).0 == w;
                if w == workspace {
                    assert(k == n);
                } else {
                    let k2 = choose|k2: int| 0 <= k2 < o.len() && (#[trigger] o[k2]).0 == w;
                    assert(k < n);
                    assert(o[k].0 == w);
                    if k != k2 {
                        if k < k2 {
                            assert(o[k].0 != o[k2].0);
                        } else {
                            assert(o[k2].0 != o[k].0);
                        }
                    }
                }
            }
            assert(self.overrides() =~= old(self).overrides().insert(workspace, mode));
        }
    }

    pub fn set_gaps(&mut self, inner: i32, outer: i32)
        ensures
            final(self).gaps_inner == inner,
            final(self).gaps_outer == outer,
            final(self).mode == old(self).mode,
            final(self).spec_overrides() == old(self).spec_overrides(),
    {
        self.gaps_inner = inner;
        self.gaps_outer = outer;
    }

    /// The mode of workspace `workspace`: its own if it has one, else the default.
    pub fn get_workspace_layout(&self, workspace: u32) -> (m: LayoutMode)
        requires
            self.wf(),
        ensures
            m == self.layout_for(workspace),
    {
        let mut i: usize = 0;
        while i < self.workspace_layouts.len()
            invariant
                i <= self.spec_overrides().len(),
                self.wf(),
                self.spec_overrides() == self.workspace_layouts@,
                forall|j: int| 0 <= j < i ==> (#[trigger] self.spec_overrides()[j]).0 != workspace,
            decreases self.workspace_layouts.len() - i,
        {
            if self.workspace_layouts[i].0 == workspace {
                proof {
                    let e = self.spec_overrides();
                    assert(e[i as int].0 == workspace);
                    let k = choose|k: int| 0 <= k < e.len() && (#[trigger] e[k]).0 == workspace;
                    if k != i {
                        if k < i {
                            assert(e[k].0 != e[i as int].0);
                        } else {
                            assert(e[i as int].0 != e[k].0);
                        }
                    }
                }
                return self.workspace_layouts[i].1;
            }
            i += 1;
        }
        self.mode
    }

    /// The tiling area of an output: its size less the outer gap on each side.
    pub fn available_area(&self, output_size: Size) -> (r: Rect)
        requires
            fits_i32(self.spec_gaps_outer() * 2),
            fits_i32(output_size.w - self.spec_gaps_outer() * 2),
            fits_i32(output_size.h - self.spec_gaps_outer() * 2),
        ensures
            area_of(r) == available_area(self.spec_gaps_outer() as int, output_size),
    {
        Rect::new(
            self.gaps_outer,
            self.gaps_outer,
            output_size.w - self.gaps_outer * 2,
            output_size.h - self.gaps_outer * 2,
        )
    }

    /// Every value that laying out `windows` on workspace `workspace` computes
    /// fits in an `i32`.
    pub open spec fn arrange_in_range(
        &self,
        workspace: u32,
        output_size: Size,
        windows: Seq<LayoutWindow>,
        master_extent: int,
    ) -> bool {
        let n = tiled(windows).len();
        let a = available_area(self.spec_gaps_outer() as int, output_size);
        n > 0 ==> {
            &&& fits_i32(self.spec_gaps_outer() * 2)
            &&& area_fits(a)
            &&& (self.layout_for(workspace) == LayoutMode::Dwindle ==> dwindle_in_range(n, a, self.spec_gaps_inner() as int))
            &&& (self.layout_for(workspace) == LayoutMode::MasterStack ==> master_stack_in_range(n, a, self.spec_gaps_inner() as int, master_extent))
        }
    }

    /// Whether laying out `windows` on workspace `workspace` stays in `i32`
    /// range (see `arrange_in_range`).
    pub fn arrange_fits(&self, workspace: u32, output_size: Size, windows: &[LayoutWindow], master_extent: i32) -> (r: bool)
        requires
            self.wf(),
        ensures
            r == self.arrange_in_range(workspace, output_size, windows@, master_extent as int),
    {
        let mut n: usize = 0;
        let mut i: usize = 0;
        while i < windows.len()
            invariant
                i <= windows@.len(),
                n as int == tiled(windows@.subrange(0, i as int)).len(),
                n <= i,
            decreases windows.len() - i,
        {
            assert(windows@.subrange(0, i + 1).drop_last() =~= windows@.subrange(0, i as int));
            if !windows[i].flags.floating && !windows[i].flags.fullscreen {
                n += 1;
            }
            i += 1;
        }
        assert(windows@.subrange(0, windows@.len() as int) =~= windows@);
        if n == 0 {
            return true;
        }
        let go = self.gaps_outer as i64;
        let a = (go, go, output_size.w as i64 - go * 2, output_size.h as i64 - go * 2);
        if !(fits_i32_exec(go * 2) && fits_i32_exec(a.0) && fits_i32_exec(a.1) && fits_i32_exec(a.2) && fits_i32_exec(a.3)) {
            return false;
        }
        match self.get_workspace_layout(workspace) {
            LayoutMode::Dwindle => dwindle_fits(n, a, self.gaps_inner as i64),
            LayoutMode::MasterStack => master_stack_fits(n, a, self.gaps_inner as i64, master_extent as i64),
            LayoutMode::Floating => true,
        }
    }

    /// Places the tiled windows (neither floating nor fullscreen) of a
    /// workspace on an output of the given size, in the workspace's mode.
    /// `master_extent` is the width of the available area times the master
    /// ratio, rounded toward zero; only the master-stack mode reads it.
    /// Floating mode keeps each window's own geometry.
    pub fn arrange_workspace(
        &self,
        workspace: u32,
        output_size: Size,
        windows: &[LayoutWindow],
        master_extent: i32,
    ) -> (r: Vec<(WindowId, Rect)>)
        requires
            self.wf(),
            self.arrange_in_range(workspace, output_size, windows@, master_extent as int),
        ensures
            ({
                let t = tiled(windows@);
                let a = available_area(self.spec_gaps_outer() as int, output_size);
                let g = self.spec_gaps_inner() as int;
                if t.len() == 0 {
                    r@.len() == 0
                } else {
                    match self.layout_for(workspace) {
                        LayoutMode::Dwindle => placed(r@, ids_of(t), dwindle(t.len(), a, g)),
                        LayoutMode::MasterStack => placed(r@, ids_of(t), master_stack(t.len(), a, g, master_extent as int)),
                        LayoutMode::Floating => placed(r@, ids_of(t), t.map_values(|w: LayoutWindow| area_of(w.geometry))),
                    }
                }
            }),
    {
        let layout = self.get_workspace_layout(workspace);
        let mut tiled_windows: Vec<LayoutWindow> = Vec::new();
        let mut ids: Vec<WindowId> = Vec::new();
        let mut i: usize = 0;
        while i < windows.len()
            invariant
                i <= windows@.len(),
                tiled_windows@ == tiled(windows@.subrange(0, i as int)),
                ids@ == ids_of(tiled_windows@),
            decreases windows.len() - i,
        {
            let w = windows[i];
            assert(windows@.subrange(0, i + 1).drop_last() =~= windows@.subrange(0, i as int));
            if !w.flags.floating && !w.flags.fullscreen {
                tiled_windows.push(w);
                ids.push(w.id);
            }
            i += 1;
            assert(ids@ =~= ids_of(tiled_windows@));
        }
        assert(windows@.subrange(0, windows@.len() as int) =~= windows@);
        let mut out: Vec<(WindowId, Rect)> = Vec::new();
        if tiled_windows.len() == 0 {
            return out;
        }
        let available = self.available_area(output_size);
        match layout {
            LayoutMode::Dwindle => {
                dwindle_into(&ids, 0, ids.len(), available, self.gaps_inner, &mut out);
                assert(out@.subrange(0, out@.len() as int) =~= out@);
                assert(ids@.subrange(0, ids@.len() as int) =~= ids@);
            },
            LayoutMode::MasterStack => {
                master_stack_into(&ids, available, self.gaps_inner, master_extent, &mut out);
            },
            LayoutMode::Floating => {
                let mut k: usize = 0;
                while k < tiled_windows.len()
                    invariant
                        k <= tiled_windows@.len(),
                        ids@ == ids_of(tiled_windows@),
                        out@.len() == k,
                        forall|j: int| 0 <= j < k ==> (#[trigger] out@[j]).0 == ids@[j] && area_of(out@[j].1) == area_of(tiled_windows@[j].geometry),
                    decreases tiled_windows.len() - k,
                {
                    out.push((tiled_windows[k].id, tiled_windows[k].geometry));
                    k += 1;
                }
            },
        }
        out
    }
}

/// A window of the given size centred on an output.
pub fn centered_geometry(output_size: Size, width: i32, height: i32) -> (r: Rect)
    requires
        fits_i32(output_size.w - width),
        fits_i32(output_size.h - height),
    ensures
        r.size.w == width,
        r.size.h == height,
        r.loc.x == tdiv(output_size.w - width, 2),
        r.loc.y == tdiv(output_size.h - height, 2),
{
    Rect::new((output_size.w - width) / 2, (output_size.h - height) / 2, width, height)
}


/// Law: a window no larger than the output, centred on it, lies inside it
/// with the same margin on either side, give or take one.
pub proof fn lemma_centered_inside(output_size: Size, width: int, height: int)
    requires
        0 <= width <= output_size.w,
        0 <= height <= output_size.h,
    ensures
        0 <= tdiv(output_size.w - width, 2),
        tdiv(output_size.w - width, 2) + width <= output_size.w,
        0 <= tdiv(output_size.h - height, 2),
        tdiv(output_size.h - height, 2) + height <= output_size.h,
        output_size.w - (tdiv(output_size.w - width, 2) + width) - tdiv(output_size.w - width, 2) <= 1,
        output_size.h - (tdiv(output_size.h - height, 2) + height) - tdiv(output_size.h - height, 2) <= 1,
{
}

/// `inner` lies inside `outer`, edges included.
pub open spec fn area_covers(outer: Area, inner: Area) -> bool {
    &&& outer.0 <= inner.0
    &&& outer.1 <= inner.1
    &&& inner.0 + inner.2 <= outer.0 + outer.2
    &&& inner.1 + inner.3 <= outer.1 + outer.3
}

/// The interiors of the two areas do not meet.
pub open spec fn areas_apart(b: Area, c: Area) -> bool {
    ||| b.0 >= c.0 + c.2
    ||| c.0 >= b.0 + b.2
    ||| b.1 >= c.1 + c.3
    ||| c.1 >= b.1 + b.3
}

pub open spec fn max_int(a: int, b: int) -> int {
    if a >= b {
        a
    } else {
        b
    }
}

/// The width and height that `n` windows need for the dwindle tiling to give
/// every one of them at least one pixel each way, with inner gap `g`.
pub open spec fn dwindle_room(n: nat, g: int) -> int
    decreases n,
{
    if n <= 1 {
        1
    } else {
        2 * max_int(dwindle_room(n / 2, g), dwindle_room((n - n / 2) as nat, g)) + g + 1
    }
}

/// The dwindle tiling has one area per window.
pub proof fn lemma_dwindle_len(n: nat, a: Area, g: int)
    ensures
        dwindle(n, a, g).len() == n,
    decreases n,
{
    if n >= 2 {
        let (first, second) = dwindle_split(n, a, g);
        lemma_dwindle_len(n / 2, first, g);
        lemma_dwindle_len((n - n / 2) as nat, second, g);
    }
}

pub proof fn lemma_dwindle_room_positive(n: nat, g: int)
    requires
        g >= 0,
    ensures
        dwindle_room(n, g) >= 1,
    decreases n,
{
    if n >= 2 {
        lemma_dwindle_room_positive(n / 2, g);
        lemma_dwindle_room_positive((n - n / 2) as nat, g);
    }
}

/// Law of the dwindle tiling: with a gap that is not negative and an area at
/// least `dwindle_room` wide and high, every window gets a non-empty area
/// inside the available one, and no two windows overlap.
pub proof fn lemma_dwindle_tiles(n: nat, a: Area, g: int)
    requires
        g >= 0,
        a.2 >= dwindle_room(n, g),
        a.3 >= dwindle_room(n, g),
    ensures
        dwindle(n, a, g).len() == n,
        forall|k: int| 0 <= k < n ==> {
            &&& area_covers(a, #[trigger] dwindle(n, a, g)[k])
            &&& dwindle(n, a, g)[k].2 >= 1
            &&& dwindle(n, a, g)[k].3 >= 1
        },
        forall|i: int, j: int| 0 <= i < j < n ==> areas_apart(#[trigger] dwindle(n, a, g)[i], #[trigger] dwindle(n, a, g)[j]),
    decreases n,
{
    lemma_dwindle_len(n, a, g);
    lemma_dwindle_room_positive(n, g);
    if n >= 2 {
        let n1 = n / 2;
        let n2 = (n - n / 2) as nat;
        let (first, second) = dwindle_split(n, a, g);
        let r1 = dwindle_room(n1, g);
        let r2 = dwindle_room(n2, g);
        lemma_dwindle_room_positive(n1, g);
        lemma_dwindle_room_positive(n2, g);
        let m = max_int(r1, r2);
        assert(a.2 >= 2 * m + g + 1 && a.3 >= 2 * m + g + 1);
        assert(first.2 >= m && first.3 >= m && second.2 >= m && second.3 >= m);
        lemma_dwindle_tiles(n1, first, g);
        lemma_dwindle_tiles(n2, second, g);
        let t1 = dwindle(n1, first, g);
        let t2 = dwindle(n2, second, g);
        let t = dwindle(n, a, g);
        assert(t == t1 + t2);
        assert(area_covers(a, first) && area_covers(a, second));
        assert(areas_apart(first, second));
        assert forall|k: int| 0 <= k < n implies {
            &&& area_covers(a, #[trigger] t[k])
            &&& t[k].2 >= 1
            &&& t[k].3 >= 1
        } by {
            if k < n1 {
                assert(t[k] == t1[k]);
            } else {
                assert(t[k] == t2[k - n1]);
            }
        }
        assert forall|i: int, j: int| 0 <= i < j < n implies areas_apart(#[trigger] t[i], #[trigger] t[j]) by {
            if j < n1 {
                assert(t[i] == t1[i] && t[j] == t1[j]);
            } else if i >= n1 {
                assert(t[i] == t2[i - n1] && t[j] == t2[j - n1]);
            } else {
                assert(t[i] == t1[i] && t[j] == t2[j - n1]);
                assert(area_covers(first, t1[i]));
                assert(area_covers(second, t2[j - n1]));
            }
        }
    }
}

/// The master-stack tiling has one area per window.
pub proof fn lemma_master_stack_len(n: nat, a: Area, g: int, m: int)
    ensures
        master_stack(n, a, g, m).len() == n,
{
}

/// Law of the master-stack tiling: the master window keeps the top-left
/// corner and the full height, and every stacked window starts to the right
/// of the master column, each one a row below the one before.
pub proof fn lemma_master_stack_shape(n: nat, a: Area, g: int, m: int)
    requires
        n >= 2,
        g >= 0,
        a.3 - (n - 2) * g >= n - 1,
    ensures
        master_stack(n, a, g, m)[0] == (a.0, a.1, m - tdiv(g, 2), a.3),
        forall|i: int| 1 <= i < n ==> (#[trigger] master_stack(n, a, g, m)[i]).0 == a.0 + (m - tdiv(g, 2)) + g,
        forall|i: int| 2 <= i < n ==> (#[trigger] master_stack(n, a, g, m)[i]).1 > master_stack(n, a, g, m)[i - 1].1,
{
    let k = n - 1;
    let sh = tdiv(a.3 - (k - 1) * g, k);
    assert(a.3 - (k - 1) * g >= k);
    assert(sh >= 1) by (nonlinear_arith)
        requires
            sh == tdiv(a.3 - (k - 1) * g, k),
            a.3 - (k - 1) * g >= k,
            k >= 1,
    ;
    let t = master_stack(n, a, g, m);
    assert forall|i: int| 2 <= i < n implies (#[trigger] t[i]).1 > t[i - 1].1 by {
        assert(t[i].1 == a.1 + row_offset(i - 1, sh + g));
        assert(t[i - 1].1 == a.1 + row_offset(i - 2, sh + g));
        assert(row_offset(i - 1, sh + g) == row_offset(i - 2, sh + g) + (sh + g)) by (nonlinear_arith);
    }
}

/// Law of the master-stack tiling: with a gap that is not negative, no two
/// windows overlap.
pub proof fn lemma_master_stack_apart(n: nat, a: Area, g: int, m: int)
    requires
        n >= 2,
        g >= 0,
        a.3 - (n - 2) * g >= n - 1,
    ensures
        forall|i: int, j: int| 0 <= i < j < n ==> areas_apart(#[trigger] master_stack(n, a, g, m)[i], #[trigger] master_stack(n, a, g, m)[j]),
{
    let k = n - 1;
    let sh = tdiv(a.3 - (k - 1) * g, k);
    assert(a.3 - (k - 1) * g >= k);
    assert(sh >= 1) by (nonlinear_arith)
        requires
            sh == tdiv(a.3 - (k - 1) * g, k),
            a.3 - (k - 1) * g >= k,
            k >= 1,
    ;
    let t = master_stack(n, a, g, m);
    assert forall|i: int, j: int| 0 <= i < j < n implies areas_apart(#[trigger] t[i], #[trigger] t[j]) by {
        if i == 0 {
            assert(t[j].0 == a.0 + (m - tdiv(g, 2)) + g);
        } else {
            assert(t[i].1 == a.1 + row_offset(i - 1, sh + g));
            assert(t[j].1 == a.1 + row_offset(j - 1, sh + g));
            assert(row_offset(j - 1, sh + g) >= row_offset(i - 1, sh + g) + sh + g) by (nonlinear_arith)
                requires
                    i < j,
                    sh >= 1,
                    g >= 0,
            ;
        }
    }
}

} // verus!
