use vstd::prelude::*;
use crate::geometry::{fits_i32, tdiv, Point, Rect, Size};
use crate::output_id::OutputId;
use crate::state::{redraw_step, State};

verus! {

/// The four stacking layers of layer-shell surfaces, bottom to top.
#[derive(Clone, Copy, Debug, PartialEq, Eq, Structural)]
pub enum Layer {
    Background,
    Bottom,
    Top,
    Overlay,
}

/// The stacking rank of a layer: 0 for the background up to 3 for overlays.
pub open spec fn layer_rank(l: Layer) -> int {
    match l {
        Layer::Background => 0,
        Layer::Bottom => 1,
        Layer::Top => 2,
        Layer::Overlay => 3,
    }
}

/// The edges a layer surface is anchored to.
#[derive(Clone, Copy, Debug, PartialEq, Eq, Structural)]
pub struct Anchor {
    pub top: bool,
    pub bottom: bool,
    pub left: bool,
    pub right: bool,
}

/// The margins a layer surface keeps from the edges it is anchored to.
#[derive(Clone, Copy, Debug, PartialEq, Eq, Structural)]
pub struct Margins {
    pub top: i32,
    pub right: i32,
    pub bottom: i32,
    pub left: i32,
}

/// How a layer surface claims space along its edge.
#[derive(Clone, Copy, Debug, PartialEq, Eq, Structural)]
pub enum ExclusiveZone {
    Exclusive(u32),
    Neutral,
    DontCare,
}

/// The committed state of a layer surface that placement reads.
#[derive(Clone, Copy, Debug, PartialEq, Eq, Structural)]
pub struct LayerSurfaceState {
    pub anchor: Anchor,
    pub size: Size,
    pub margin: Margins,
    pub exclusive_zone: ExclusiveZone,
}

/// A surface on no particular output shows on every output.
pub open spec fn spec_layer_matches_output(surface_output: Option<OutputId>, output_id: OutputId) -> bool {
    surface_output is None || surface_output == Some(output_id)
}

pub fn layer_matches_output(surface_output: Option<OutputId>, output_id: OutputId) -> (b: bool)
    ensures
        b == spec_layer_matches_output(surface_output, output_id),
{
    match surface_output {
        None => true,
        Some(o) => o == output_id,
    }
}

/// Where a layer surface goes on an output: against the edges it is anchored
/// to, less its margins, and centred along an axis it is not anchored on.
/// A zero or negative requested size takes the output's size.
pub open spec fn layer_position(st: LayerSurfaceState, out: Size) -> (int, int) {
    let w: int = if st.size.w > 0 { st.size.w as int } else { out.w as int };
    let h: int = if st.size.h > 0 { st.size.h as int } else { out.h as int };
    let a = st.anchor;
    let m = st.margin;
    if a.top {
        let y = m.top as int;
        if a.left {
            (m.left as int, y)
        } else if a.right {
            (out.w - w - m.right, y)
        } else {
            (tdiv(out.w - w, 2), y)
        }
    } else if a.bottom {
        let y = out.h - h - m.bottom;
        if a.left {
            (m.left as int, y)
        } else if a.right {
            (out.w - w - m.right, y)
        } else {
            (tdiv(out.w - w, 2), y)
        }
    } else if a.left {
        (m.left as int, tdiv(out.h - h, 2))
    } else if a.right {
        (out.w - w - m.right, tdiv(out.h - h, 2))
    } else {
        (tdiv(out.w - w, 2), tdiv(out.h - h, 2))
    }
}

/// The arithmetic of `layer_position` stays within `i32`.
pub open spec fn layer_position_in_range(st: LayerSurfaceState, out: Size) -> bool {
    let w: int = if st.size.w > 0 { st.size.w as int } else { out.w as int };
    let h: int = if st.size.h > 0 { st.size.h as int } else { out.h as int };
    &&& fits_i32(out.w - w)
    &&& fits_i32(out.h - h)
    &&& fits_i32(out.w - w - st.margin.right)
    &&& fits_i32(out.h - h - st.margin.bottom)
}

pub fn compute_layer_surface_position(state: &LayerSurfaceState, output_size: Size) -> (p: Point)
    requires
        layer_position_in_range(*state, output_size),
    ensures
        (p.x as int, p.y as int) == layer_position(*state, output_size),
{
    let w = if state.size.w > 0 { state.size.w } else { output_size.w };
    let h = if state.size.h > 0 { state.size.h } else { output_size.h };
    let anchor = state.anchor;
    let margin = state.margin;
    let (x, y) = if anchor.top {
        let y = margin.top;
        if anchor.left {
            (margin.left, y)
        } else if anchor.right {
            (output_size.w - w - margin.right, y)
        } else {
            ((output_size.w - w) / 2, y)
        }
    } else if anchor.bottom {
        let y = output_size.h - h - margin.bottom;
        if anchor.left {
            (margin.left, y)
        } else if anchor.right {
            (output_size.w - w - margin.right, y)
        } else {
            ((output_size.w - w) / 2, y)
        }
    } else if anchor.left {
        let x = margin.left;
        if anchor.top {
            (x, margin.top)
        } else if anchor.bottom {
            (x, output_size.h - h - margin.bottom)
        } else {
            (x, (output_size.h - h) / 2)
        }
    } else if anchor.right {
        let x = output_size.w - w - margin.right;
        if anchor.top {
            (x, margin.top)
        } else if anchor.bottom {
            (x, output_size.h - h - margin.bottom)
        } else {
            (x, (output_size.h - h) / 2)
        }
    } else {
        ((output_size.w - w) / 2, (output_size.h - h) / 2)
    };
    Point { x, y }
}

/// The space a surface with an exclusive zone takes from the tiling area:
/// its size along the anchored edge, or the zone when that size is zero.
pub open spec fn claimed(size: i32, zone: u32) -> int {
    if size > 0 {
        size as int
    } else {
        (zone as i32) as int
    }
}

/// The tiling area left after the surfaces `s` (the mapped layer surfaces,
/// in stacking order) took their exclusive zones from `a`, before clamping.
pub open spec fn tiling_area(s: Seq<LayerSurfaceState>, a: (int, int, int, int)) -> (int, int, int, int)
    decreases s.len(),
{
    if s.len() == 0 {
        a
    } else {
        let b = tiling_area(s.drop_last(), a);
        let st = s.last();
        match st.exclusive_zone {
            ExclusiveZone::Exclusive(z) => {
                if z == 0 {
                    b
                } else if st.anchor.top {
                    let h = claimed(st.size.h, z);
                    (b.0, b.1 + h, b.2, b.3 - h)
                } else if st.anchor.bottom {
                    (b.0, b.1, b.2, b.3 - claimed(st.size.h, z))
                } else if st.anchor.left {
                    let w = claimed(st.size.w, z);
                    (b.0 + w, b.1, b.2 - w, b.3)
                } else if st.anchor.right {
                    (b.0, b.1, b.2 - claimed(st.size.w, z), b.3)
                } else {
                    b
                }
            },
            _ => b,
        }
    }
}

/// How much of the output's `edge` (0 top, 1 bottom, 2 left, 3 right) the
/// surfaces `s` claim for their exclusive zones: a surface with a non-zero
/// exclusive zone claims the first of its anchored edges in the order top,
/// bottom, left, right.
pub open spec fn edge_claims(s: Seq<LayerSurfaceState>, edge: int) -> int
    decreases s.len(),
{
    if s.len() == 0 {
        0
    } else {
        let st = s.last();
        let mine = match st.exclusive_zone {
            ExclusiveZone::Exclusive(z) => if z == 0 {
                0
            } else if st.anchor.top {
                if edge == 0 { claimed(st.size.h, z) } else { 0 }
            } else if st.anchor.bottom {
                if edge == 1 { claimed(st.size.h, z) } else { 0 }
            } else if st.anchor.left {
                if edge == 2 { claimed(st.size.w, z) } else { 0 }
            } else if st.anchor.right {
                if edge == 3 { claimed(st.size.w, z) } else { 0 }
            } else {
                0
            },
            _ => 0,
        };
        edge_claims(s.drop_last(), edge) + mine
    }
}

/// Law of the tiling area: each edge of the area moves in by what the
/// surfaces claim at that edge, and only there. The top edge moves down by
/// the top claims, the bottom edge up by the bottom claims, the left edge
/// right by the left claims and the right edge left by the right claims.
pub proof fn lemma_tiling_area_edges(s: Seq<LayerSurfaceState>, a: (int, int, int, int))
    ensures
        tiling_area(s, a).1 == a.1 + edge_claims(s, 0),
        tiling_area(s, a).1 + tiling_area(s, a).3 == a.1 + a.3 - edge_claims(s, 1),
        tiling_area(s, a).0 == a.0 + edge_claims(s, 2),
        tiling_area(s, a).0 + tiling_area(s, a).2 == a.0 + a.2 - edge_claims(s, 3),
    decreases s.len(),
{
    if s.len() > 0 {
        lemma_tiling_area_edges(s.drop_last(), a);
    }
}

/// Every partial tiling area fits in an `i32`.
pub open spec fn tiling_in_range(s: Seq<LayerSurfaceState>, a: (int, int, int, int)) -> bool {
    forall|k: int| 0 <= k <= s.len() ==> {
        let b = #[trigger] tiling_area(s.subrange(0, k), a);
        fits_i32(b.0) && fits_i32(b.1) && fits_i32(b.2) && fits_i32(b.3)
    }
}

/// The area left for tiled windows once the mapped layer surfaces `surfaces`
/// took their exclusive zones from an output of the given size. Width and
/// height that would be negative become zero.
pub fn compute_tiling_area(surfaces: &[LayerSurfaceState], output_size: Size) -> (r: Rect)
    requires
        tiling_in_range(surfaces@, (0, 0, output_size.w as int, output_size.h as int)),
    ensures
        ({
            let t = tiling_area(surfaces@, (0, 0, output_size.w as int, output_size.h as int));
            &&& r.loc.x == t.0
            &&& r.loc.y == t.1
            &&& r.size.w == (if t.2 < 0 { 0 } else { t.2 })
            &&& r.size.h == (if t.3 < 0 { 0 } else { t.3 })
        }),
{
    let ghost a = (0int, 0int, output_size.w as int, output_size.h as int);
    let mut x: i32 = 0;
    let mut y: i32 = 0;
    let mut w: i32 = output_size.w;
    let mut h: i32 = output_size.h;
    let mut i: usize = 0;
    assert(surfaces@.subrange(0, 0) =~= Seq::<LayerSurfaceState>::empty());
    while i < surfaces.len()
        invariant
            i <= surfaces@.len(),
            tiling_in_range(surfaces@, a),
            a == (0int, 0int, output_size.w as int, output_size.h as int),
            (x as int, y as int, w as int, h as int) == tiling_area(surfaces@.subrange(0, i as int), a),
        decreases surfaces.len() - i,
    {
        let st = surfaces[i];
        let ghost next = surfaces@.subrange(0, i + 1);
        assert(next.drop_last() =~= surfaces@.subrange(0, i as int));
        assert(next.last() == st);
        let ghost b = tiling_area(next, a);
        assert(fits_i32(b.0) && fits_i32(b.1) && fits_i32(b.2) && fits_i32(b.3));
        match st.exclusive_zone {
            ExclusiveZone::Exclusive(zone) => {
                if zone > 0 {
                    if st.anchor.top {
                        let claim = if st.size.h > 0 { st.size.h } else { zone as i32 };
                        y = y + claim;
                        h = h - claim;
                    } else if st.anchor.bottom {
                        let claim = if st.size.h > 0 { st.size.h } else { zone as i32 };
                        h = h - claim;
                    } else if st.anchor.left {
                        let claim = if st.size.w > 0 { st.size.w } else { zone as i32 };
                        x = x + claim;
                        w = w - claim;
                    } else if st.anchor.right {
                        let claim = if st.size.w > 0 { st.size.w } else { zone as i32 };
                        w = w - claim;
                    }
                }
            },
            _ => {},
        }
        i += 1;
    }
    assert(surfaces@.subrange(0, surfaces@.len() as int) =~= surfaces@);
    if w < 0 {
        w = 0;
    }
    if h < 0 {
        h = 0;
    }
    Rect::new(x, y, w, h)
}

} // verus!

verus! {

/// Whether `compute_layer_surface_position` can place `state` on an output
/// of size `output_size` without leaving `i32`.
pub fn position_in_range(state: &LayerSurfaceState, output_size: Size) -> (b: bool)
    ensures
        b == layer_position_in_range(*state, output_size),
{
    let w: i64 = if state.size.w > 0 { state.size.w as i64 } else { output_size.w as i64 };
    let h: i64 = if state.size.h > 0 { state.size.h as i64 } else { output_size.h as i64 };
    let dw = output_size.w as i64 - w;
    let dh = output_size.h as i64 - h;
    let min: i64 = i32::MIN as i64;
    let max: i64 = i32::MAX as i64;
    let rw = dw - state.margin.right as i64;
    let rh = dh - state.margin.bottom as i64;
    min <= dw && dw <= max && min <= dh && dh <= max && min <= rw && rw <= max && min <= rh && rh <= max
}

/// What the compositor keeps of a layer-shell surface: its surface key, its
/// layer and namespace, the output it shows on (none: every output), and
/// whether it has a buffer.
#[derive(Debug)]
pub struct LayerSurfaceInfo {
    pub surface: u64,
    pub layer: Layer,
    pub namespace: String,
    pub output_id: Option<OutputId>,
    pub mapped: bool,
}

impl LayerSurfaceInfo {
    /// A surface that has no buffer yet.
    pub fn new(surface: u64, layer: Layer, namespace: String, output_id: Option<OutputId>) -> (r: LayerSurfaceInfo)
        ensures
            r == (LayerSurfaceInfo { surface, layer, namespace, output_id, mapped: false }),
    {
        LayerSurfaceInfo { surface, layer, namespace, output_id, mapped: false }
    }
}

/// `i` is the first place in `s` where surface `key` is recorded.
pub open spec fn first_surface(s: Seq<LayerSurfaceInfo>, key: u64, i: int) -> bool {
    &&& 0 <= i < s.len()
    &&& s[i].surface == key
    &&& forall|j: int| 0 <= j < i ==> (#[trigger] s[j]).surface != key
}

/// Surface `key` is recorded in `s`.
pub open spec fn holds_surface(s: Seq<LayerSurfaceInfo>, key: u64) -> bool {
    exists|i: int| 0 <= i < s.len() && (#[trigger] s[i]).surface == key
}

/// The first record of surface `key` in `s` (meaningful when it is recorded).
pub open spec fn surface_at(s: Seq<LayerSurfaceInfo>, key: u64) -> int {
    choose|i: int| first_surface(s, key, i)
}

/// `info` with its mapped flag set to `mapped`.
pub open spec fn with_mapped(info: LayerSurfaceInfo, mapped: bool) -> LayerSurfaceInfo {
    LayerSurfaceInfo { mapped, ..info }
}

/// `s` with the first record of `key` marked as `mapped`; unchanged when
/// `key` is not recorded.
pub open spec fn marked(s: Seq<LayerSurfaceInfo>, key: u64, mapped: bool) -> Seq<LayerSurfaceInfo> {
    if holds_surface(s, key) {
        s.update(surface_at(s, key), with_mapped(s[surface_at(s, key)], mapped))
    } else {
        s
    }
}

/// `p` without any occurrence of `key`.
pub open spec fn drop_key(p: Seq<u64>, key: u64) -> Seq<u64>
    decreases p.len(),
{
    if p.len() == 0 {
        p
    } else if p.last() == key {
        drop_key(p.drop_last(), key)
    } else {
        drop_key(p.drop_last(), key).push(p.last())
    }
}

/// The pending surfaces of `p` that are recorded in `s`, in order.
pub open spec fn recorded_of(p: Seq<u64>, s: Seq<LayerSurfaceInfo>) -> Seq<u64>
    decreases p.len(),
{
    if p.len() == 0 {
        p
    } else if holds_surface(s, p.last()) {
        recorded_of(p.drop_last(), s).push(p.last())
    } else {
        recorded_of(p.drop_last(), s)
    }
}

/// The records of `s` on layer `layer`, in order; with `mapped_only`, only
/// those that are mapped.
pub open spec fn of_layer(s: Seq<LayerSurfaceInfo>, layer: Layer, mapped_only: bool) -> Seq<LayerSurfaceInfo>
    decreases s.len(),
{
    if s.len() == 0 {
        s
    } else if s.last().layer == layer && (s.last().mapped || !mapped_only) {
        of_layer(s.drop_last(), layer, mapped_only).push(s.last())
    } else {
        of_layer(s.drop_last(), layer, mapped_only)
    }
}

/// The mapped records of `s`, bottom layer first, in order within a layer.
pub open spec fn mapped_ordered(s: Seq<LayerSurfaceInfo>) -> Seq<LayerSurfaceInfo> {
    of_layer(s, Layer::Background, true) + of_layer(s, Layer::Bottom, true) + of_layer(s, Layer::Top, true)
        + of_layer(s, Layer::Overlay, true)
}

/// The layer-shell surfaces the compositor knows, in the order they came,
/// and those waiting for their first configure.
#[derive(Debug)]
pub struct LayerShellManager {
    surfaces: Vec<LayerSurfaceInfo>,
    pending_surfaces: Vec<u64>,
}

impl LayerShellManager {
    pub closed spec fn spec_surfaces(&self) -> Seq<LayerSurfaceInfo> {
        self.surfaces@
    }

    pub closed spec fn spec_pending(&self) -> Seq<u64> {
        self.pending_surfaces@
    }

    /// No surface waits twice for its configure.
    pub open spec fn wf(&self) -> bool {
        self.spec_pending().no_duplicates()
    }

    pub fn new() -> (m: LayerShellManager)
        ensures
            m.wf(),
            m.spec_surfaces().len() == 0,
            m.spec_pending().len() == 0,
    {
        LayerShellManager { surfaces: Vec::new(), pending_surfaces: Vec::new() }
    }

    pub fn add_surface(&mut self, info: LayerSurfaceInfo)
        ensures
            final(self).spec_surfaces() == old(self).spec_surfaces().push(info),
            final(self).spec_pending() == old(self).spec_pending(),
    {
        self.surfaces.push(info);
    }

    fn position(&self, key: u64) -> (r: Option<usize>)
        ensures
            match r {
                Some(i) => first_surface(self.spec_surfaces(), key, i as int) && holds_surface(self.spec_surfaces(), key)
                    && surface_at(self.spec_surfaces(), key) == i,
                None => !holds_surface(self.spec_surfaces(), key),
            },
    {
        let mut i: usize = 0;
        while i < self.surfaces.len()
            invariant
                i <= self.surfaces@.len(),
                forall|j: int| 0 <= j < i ==> (#[trigger] self.surfaces@[j]).surface != key,
            decreases self.surfaces.len() - i,
        {
            if self.surfaces[i].surface == key {
                proof {
                    let s = self.surfaces@;
                    assert(first_surface(s, key, i as int));
                    let c = surface_at(s, key);
                    assert(first_surface(s, key, c));
                    if c < i {
                        assert(s[c].surface != key);
                    } else if c > i {
                        assert(s[i as int].surface != key);
                    }
                }
                return Some(i);
            }
            i += 1;
        }
        None
    }

    /// Forgets surface `key`: its first record and any wait for a configure.
    pub fn remove_surface(&mut self, key: u64)
        requires
            old(self).wf(),
        ensures
            final(self).wf(),
            final(self).spec_surfaces() == (if holds_surface(old(self).spec_surfaces(), key) {
                old(self).spec_surfaces().remove(surface_at(old(self).spec_surfaces(), key))
            } else {
                old(self).spec_surfaces()
            }),
            final(self).spec_pending() == drop_key(old(self).spec_pending(), key),
    {
        if let Some(pos) = self.position(key) {
            self.surfaces.remove(pos);
        }
        let mut kept: Vec<u64> = Vec::new();
        let mut i: usize = 0;
        while i < self.pending_surfaces.len()
            invariant
                i <= self.pending_surfaces@.len(),
                self.pending_surfaces@.no_duplicates(),
                kept@ == drop_key(self.pending_surfaces@.subrange(0, i as int), key),
                forall|x: u64| kept@.contains(x) ==> self.pending_surfaces@.subrange(0, i as int).contains(x),
                kept@.no_duplicates(),
            decreases self.pending_surfaces.len() - i,
        {
            let ghost pre = self.pending_surfaces@.subrange(0, i as int);
            let ghost next = self.pending_surfaces@.subrange(0, i + 1);
            assert(next.drop_last() =~= pre);
            let s = self.pending_surfaces[i];
            let ghost kept_before = kept@;
            if s != key {
                proof {
                    if kept@.contains(s) {
                        let j = choose|j: int| 0 <= j < i && pre[j] == s;
                        assert(self.pending_surfaces@[j] == self.pending_surfaces@[i as int]);
                    }
                }
                kept.push(s);
            }
            proof {
                assert forall|x: u64| kept@.contains(x) implies next.contains(x) by {
                    if x != s {
                        assert(kept_before.contains(x));
                        assert(pre.contains(x));
                        let j = choose|j: int| 0 <= j < pre.len() && pre[j] == x;
                        assert(next[j] == x);
                    } else {
                        assert(next[i as int] == x);
                    }
                }
            }
            i += 1;
        }
        assert(self.pending_surfaces@.subrange(0, self.pending_surfaces@.len() as int) =~= self.pending_surfaces@);
        self.pending_surfaces = kept;
    }

    /// The surfaces known, in the order they came.
    pub fn surfaces(&self) -> (r: &[LayerSurfaceInfo])
        ensures
            r@ == self.spec_surfaces(),
    {
        self.surfaces.as_slice()
    }

    /// The surfaces on layer `layer`, in the order they came.
    pub fn surfaces_for_layer(&self, layer: Layer) -> (r: Vec<&LayerSurfaceInfo>)
        ensures
            r@.map_values(|x: &LayerSurfaceInfo| *x) == of_layer(self.spec_surfaces(), layer, false),
    {
        self.collect_layer(layer, false)
    }

    fn collect_layer(&self, layer: Layer, mapped_only: bool) -> (r: Vec<&LayerSurfaceInfo>)
        ensures
            r@.map_values(|x: &LayerSurfaceInfo| *x) == of_layer(self.spec_surfaces(), layer, mapped_only),
    {
        let mut r: Vec<&LayerSurfaceInfo> = Vec::new();
        let mut i: usize = 0;
        while i < self.surfaces.len()
            invariant
                i <= self.surfaces@.len(),
                r@.map_values(|x: &LayerSurfaceInfo| *x) == of_layer(self.surfaces@.subrange(0, i as int), layer, mapped_only),
            decreases self.surfaces.len() - i,
        {
            let ghost next = self.surfaces@.subrange(0, i + 1);
            assert(next.drop_last() =~= self.surfaces@.subrange(0, i as int));
            let info = &self.surfaces[i];
            if info.layer == layer && (info.mapped || !mapped_only) {
                r.push(info);
            }
            assert(r@.map_values(|x: &LayerSurfaceInfo| *x) =~= of_layer(next, layer, mapped_only));
            i += 1;
        }
        assert(self.surfaces@.subrange(0, self.surfaces@.len() as int) =~= self.surfaces@);
        r
    }

    /// Whether surface `key` is a layer-shell surface known here.
    pub fn is_layer_surface(&self, key: u64) -> (b: bool)
        ensures
            b == holds_surface(self.spec_surfaces(), key),
    {
        self.position(key).is_some()
    }

    /// Marks surface `key` as having a buffer.
    pub fn mark_mapped(&mut self, key: u64)
        ensures
            final(self).spec_surfaces() == marked(old(self).spec_surfaces(), key, true),
            final(self).spec_pending() == old(self).spec_pending(),
    {
        self.set_mapped(key, true);
    }

    /// Marks surface `key` as having no buffer.
    pub fn mark_unmapped(&mut self, key: u64)
        ensures
            final(self).spec_surfaces() == marked(old(self).spec_surfaces(), key, false),
            final(self).spec_pending() == old(self).spec_pending(),
    {
        self.set_mapped(key, false);
    }

    fn set_mapped(&mut self, key: u64, mapped: bool)
        ensures
            final(self).spec_surfaces() == marked(old(self).spec_surfaces(), key, mapped),
            final(self).spec_pending() == old(self).spec_pending(),
    {
        if let Some(i) = self.position(key) {
            let ghost s = self.surfaces@;
            let mut info = self.surfaces.remove(i);
            info.mapped = mapped;
            self.surfaces.insert(i, info);
            assert(self.surfaces@ =~= s.update(i as int, with_mapped(s[i as int], mapped)));
        }
    }

    /// Lets surface `key` wait for its first configure, unless it already does.
    pub fn add_pending(&mut self, key: u64)
        requires
            old(self).wf(),
        ensures
            final(self).wf(),
            final(self).spec_surfaces() == old(self).spec_surfaces(),
            final(self).spec_pending() == (if old(self).spec_pending().contains(key) {
                old(self).spec_pending()
            } else {
                old(self).spec_pending().push(key)
            }),
    {
        let mut i: usize = 0;
        while i < self.pending_surfaces.len()
            invariant
                i <= self.pending_surfaces@.len(),
                self.pending_surfaces@.no_duplicates(),
                forall|j: int| 0 <= j < i ==> self.pending_surfaces@[j] != key,
            decreases self.pending_surfaces.len() - i,
        {
            if self.pending_surfaces[i] == key {
                return;
            }
            i += 1;
        }
        self.pending_surfaces.push(key);
    }

    /// Ends the wait of every pending surface, and answers the surfaces to
    /// send their configure to: those pending that are known, in order.
    pub fn configure_pending(&mut self) -> (r: Vec<u64>)
        ensures
            final(self).wf(),
            r@ == recorded_of(old(self).spec_pending(), old(self).spec_surfaces()),
            final(self).spec_surfaces() == old(self).spec_surfaces(),
            final(self).spec_pending().len() == 0,
    {
        let mut r: Vec<u64> = Vec::new();
        let mut i: usize = 0;
        while i < self.pending_surfaces.len()
            invariant
                i <= self.pending_surfaces@.len(),
                r@ == recorded_of(self.pending_surfaces@.subrange(0, i as int), self.surfaces@),
            decreases self.pending_surfaces.len() - i,
        {
            let ghost next = self.pending_surfaces@.subrange(0, i + 1);
            assert(next.drop_last() =~= self.pending_surfaces@.subrange(0, i as int));
            let key = self.pending_surfaces[i];
            if self.position(key).is_some() {
                r.push(key);
            }
            i += 1;
        }
        assert(self.pending_surfaces@.subrange(0, self.pending_surfaces@.len() as int) =~= self.pending_surfaces@);
        self.pending_surfaces.clear();
        r
    }

    /// The layer of surface `key`, if it is known.
    pub fn get_layer(&self, key: u64) -> (r: Option<Layer>)
        ensures
            r == (if holds_surface(self.spec_surfaces(), key) {
                Some(self.spec_surfaces()[surface_at(self.spec_surfaces(), key)].layer)
            } else {
                None
            }),
    {
        match self.position(key) {
            Some(i) => Some(self.surfaces[i].layer),
            None => None,
        }
    }

    /// The mapped surfaces, bottom layer first; within a layer in the order
    /// they came.
    pub fn mapped_surfaces_ordered(&self) -> (r: Vec<&LayerSurfaceInfo>)
        ensures
            r@.map_values(|x: &LayerSurfaceInfo| *x) == mapped_ordered(self.spec_surfaces()),
    {
        let mut r = self.collect_layer(Layer::Background, true);
        let mut bottom = self.collect_layer(Layer::Bottom, true);
        let mut top = self.collect_layer(Layer::Top, true);
        let mut overlay = self.collect_layer(Layer::Overlay, true);
        let ghost (a, b, c, d) = (r@, bottom@, top@, overlay@);
        r.append(&mut bottom);
        r.append(&mut top);
        r.append(&mut overlay);
        assert(r@ == a + b + c + d);
        assert(r@.map_values(|x: &LayerSurfaceInfo| *x) =~= a.map_values(|x: &LayerSurfaceInfo| *x) + b.map_values(
            |x: &LayerSurfaceInfo| *x,
        ) + c.map_values(|x: &LayerSurfaceInfo| *x) + d.map_values(|x: &LayerSurfaceInfo| *x));
        r
    }
}

/// Law: a surface that was not recorded, once added, is found at the end
/// with the layer it was added on, and removing it gives back the records
/// there were before.
pub proof fn lemma_add_then_remove(s: Seq<LayerSurfaceInfo>, info: LayerSurfaceInfo)
    requires
        !holds_surface(s, info.surface),
    ensures
        holds_surface(s.push(info), info.surface),
        surface_at(s.push(info), info.surface) == s.len(),
        s.push(info)[surface_at(s.push(info), info.surface)].layer == info.layer,
        s.push(info).remove(surface_at(s.push(info), info.surface)) == s,
{
    let t = s.push(info);
    let n = s.len() as int;
    assert(t[n].surface == info.surface);
    assert(first_surface(t, info.surface, n)) by {
        assert forall|j: int| 0 <= j < n implies (#[trigger] t[j]).surface != info.surface by {
            assert(t[j] == s[j]);
        }
    }
    let k = surface_at(t, info.surface);
    assert(first_surface(t, info.surface, k));
    if k < n {
        assert(t[k] == s[k]);
        assert(false);
    }
    assert(t.remove(n) =~= s);
}

/// Every record of `of_layer(s, layer, m)` is on `layer`.
pub proof fn lemma_of_layer_on_layer(s: Seq<LayerSurfaceInfo>, layer: Layer, m: bool)
    ensures
        forall|i: int| 0 <= i < of_layer(s, layer, m).len() ==> (#[trigger] of_layer(s, layer, m)[i]).layer == layer
            && (m ==> of_layer(s, layer, m)[i].mapped),
    decreases s.len(),
{
    if s.len() > 0 {
        lemma_of_layer_on_layer(s.drop_last(), layer, m);
    }
}

/// The mapped surfaces come out sorted by layer, bottom to top, and every
/// one of them is mapped.
pub proof fn lemma_mapped_ordered_by_layer(s: Seq<LayerSurfaceInfo>)
    ensures
        forall|i: int, j: int|
            0 <= i <= j < mapped_ordered(s).len() ==> layer_rank((#[trigger] mapped_ordered(s)[i]).layer) <= layer_rank(
                (#[trigger] mapped_ordered(s)[j]).layer,
            ),
        forall|i: int| 0 <= i < mapped_ordered(s).len() ==> (#[trigger] mapped_ordered(s)[i]).mapped,
{
    lemma_of_layer_on_layer(s, Layer::Background, true);
    lemma_of_layer_on_layer(s, Layer::Bottom, true);
    lemma_of_layer_on_layer(s, Layer::Top, true);
    lemma_of_layer_on_layer(s, Layer::Overlay, true);
    let a = of_layer(s, Layer::Background, true);
    let b = of_layer(s, Layer::Bottom, true);
    let c = of_layer(s, Layer::Top, true);
    let d = of_layer(s, Layer::Overlay, true);
    let r = mapped_ordered(s);
    assert forall|i: int| 0 <= i < r.len() implies layer_rank((#[trigger] r[i]).layer) == (if i < a.len() {
        0int
    } else if i < a.len() + b.len() {
        1
    } else if i < a.len() + b.len() + c.len() {
        2
    } else {
        3
    }) && r[i].mapped by {
        if i < a.len() {
            assert(r[i] == a[i]);
        } else if i < a.len() + b.len() {
            assert(r[i] == b[i - a.len()]);
        } else if i < a.len() + b.len() + c.len() {
            assert(r[i] == c[i - a.len() - b.len()]);
        } else {
            assert(r[i] == d[i - a.len() - b.len() - c.len()]);
        }
    }
}

/// The mapped layer surfaces for output `output_id`, bottom layer first, as
/// layer and surface.
pub fn get_layer_surfaces_for_output(manager: &LayerShellManager, output_id: OutputId) -> (r: Vec<(Layer, u64)>)
    ensures
        r@ == for_output(mapped_ordered(manager.spec_surfaces()), output_id),
{
    let ordered = manager.mapped_surfaces_ordered();
    let ghost m = ordered@.map_values(|x: &LayerSurfaceInfo| *x);
    let mut r: Vec<(Layer, u64)> = Vec::new();
    let mut i: usize = 0;
    while i < ordered.len()
        invariant
            i <= ordered@.len(),
            m == ordered@.map_values(|x: &LayerSurfaceInfo| *x),
            r@ == for_output(m.subrange(0, i as int), output_id),
        decreases ordered.len() - i,
    {
        let ghost next = m.subrange(0, i + 1);
        assert(next.drop_last() =~= m.subrange(0, i as int));
        assert(next.last() == *ordered@[i as int]);
        let info = ordered[i];
        if layer_matches_output(info.output_id, output_id) {
            r.push((info.layer, info.surface));
        }
        i += 1;
    }
    assert(m.subrange(0, m.len() as int) =~= m);
    r
}

/// The layer and surface of each record of `s` that shows on output `o`.
pub open spec fn for_output(s: Seq<LayerSurfaceInfo>, o: OutputId) -> Seq<(Layer, u64)>
    decreases s.len(),
{
    if s.len() == 0 {
        Seq::empty()
    } else if spec_layer_matches_output(s.last().output_id, o) {
        for_output(s.drop_last(), o).push((s.last().layer, s.last().surface))
    } else {
        for_output(s.drop_last(), o)
    }
}

/// The output a new layer surface shows on: the one it asked for, else the
/// compositor's current output, else the primary one.
pub fn layer_surface_output(requested: Option<OutputId>, current: Option<OutputId>, primary: Option<OutputId>) -> (r: Option<
    OutputId,
>)
    ensures
        r == (if requested is Some {
            requested
        } else if current is Some {
            current
        } else {
            primary
        }),
{
    match requested {
        Some(o) => Some(o),
        None => match current {
            Some(o) => Some(o),
            None => primary,
        },
    }
}

/// Takes a commit of layer surface `key` (with a buffer attached or not):
/// records it as mapped or unmapped and asks for a redraw. Answers whether
/// `key` is a layer surface; another surface changes nothing.
pub fn handle_layer_surface_commit(manager: &mut LayerShellManager, state: &mut State, key: u64, has_buffer: bool) -> (r: bool)
    requires
        old(state).wf(),
    ensures
        final(state).wf(),
        r == holds_surface(old(manager).spec_surfaces(), key),
        final(manager).spec_pending() == old(manager).spec_pending(),
        !r ==> *final(manager) == *old(manager) && *final(state) == *old(state),
        r ==> final(manager).spec_surfaces() == marked(old(manager).spec_surfaces(), key, has_buffer),
        r ==> redraw_step(*old(state), *final(state)),
{
    if !manager.is_layer_surface(key) {
        return false;
    }
    if has_buffer {
        manager.mark_mapped(key);
    } else {
        manager.mark_unmapped(key);
    }
    state.mark_redraw();
    true
}

} // verus!
