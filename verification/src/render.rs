use vstd::prelude::*;
use crate::geometry::{Point, Size};
use crate::layer_shell::{
    compute_layer_surface_position, layer_matches_output, layer_position, layer_position_in_range, mapped_ordered,
    spec_layer_matches_output, Layer, LayerShellManager, LayerSurfaceInfo, LayerSurfaceState,
};
use crate::output::OutputMap;
use crate::output_id::OutputId;
use crate::session_lock::{LockSurfaceInfo, SessionLockManager};
use crate::state::{surfaces_floating, visible_in, State};

verus! {

/// The point of a position computed as integers.
pub open spec fn point_at(p: (int, int)) -> Point {
    Point { x: p.0 as i32, y: p.1 as i32 }
}

/// The layer, surface and position of each of the mapped layer surfaces
/// `s` (with their committed states `c`) that shows on output `o`; all of
/// them when `o` is `None`.
pub open spec fn placed_for(s: Seq<LayerSurfaceInfo>, c: Seq<LayerSurfaceState>, o: Option<OutputId>, size: Size) -> Seq<
    (Layer, u64, Point),
>
    decreases s.len(),
{
    if s.len() == 0 || c.len() == 0 {
        Seq::empty()
    } else {
        let before = placed_for(s.drop_last(), c.drop_last(), o, size);
        let shown = match o {
            Some(id) => spec_layer_matches_output(s.last().output_id, id),
            None => true,
        };
        if shown {
            before.push((s.last().layer, s.last().surface, point_at(layer_position(c.last(), size))))
        } else {
            before
        }
    }
}

/// Every committed state of `c` can be placed on an output of size `size`.
pub open spec fn placeable(c: Seq<LayerSurfaceState>, size: Size) -> bool {
    forall|i: int| 0 <= i < c.len() ==> layer_position_in_range(#[trigger] c[i], size)
}

/// Places the mapped layer surfaces of `manager` (bottom layer first, each
/// with its committed state in `committed`) on an output of size
/// `output_size`: those for `output` only, or all when `output` is `None`.
pub fn place_layer_surfaces(
    manager: &LayerShellManager,
    committed: &[LayerSurfaceState],
    output: Option<OutputId>,
    output_size: Size,
) -> (r: Vec<(Layer, u64, Point)>)
    requires
        committed@.len() == mapped_ordered(manager.spec_surfaces()).len(),
        placeable(committed@, output_size),
    ensures
        r@ == placed_for(mapped_ordered(manager.spec_surfaces()), committed@, output, output_size),
{
    let ordered = manager.mapped_surfaces_ordered();
    let ghost m = ordered@.map_values(|x: &LayerSurfaceInfo| *x);
    let mut r: Vec<(Layer, u64, Point)> = Vec::new();
    let mut i: usize = 0;
    while i < ordered.len()
        invariant
            i <= ordered@.len(),
            m == ordered@.map_values(|x: &LayerSurfaceInfo| *x),
            m.len() == committed@.len(),
            placeable(committed@, output_size),
            r@ == placed_for(m.subrange(0, i as int), committed@.subrange(0, i as int), output, output_size),
        decreases ordered.len() - i,
    {
        let ghost next = m.subrange(0, i + 1);
        let ghost cnext = committed@.subrange(0, i + 1);
        assert(next.drop_last() =~= m.subrange(0, i as int));
        assert(cnext.drop_last() =~= committed@.subrange(0, i as int));
        assert(next.last() == *ordered@[i as int]);
        assert(cnext.last() == committed@[i as int]);
        let info = ordered[i];
        let shown = match output {
            Some(id) => layer_matches_output(info.output_id, id),
            None => true,
        };
        if shown {
            let p = compute_layer_surface_position(&committed[i], output_size);
            r.push((info.layer, info.surface, p));
        }
        i += 1;
    }
    assert(m.subrange(0, m.len() as int) =~= m);
    assert(committed@.subrange(0, committed@.len() as int) =~= committed@);
    r
}

/// The mapped layer surfaces shown on output `output_id`, each placed on an
/// output of size `output_size`.
pub fn get_layer_surfaces_with_positions(
    manager: &LayerShellManager,
    committed: &[LayerSurfaceState],
    output_id: OutputId,
    output_size: Size,
) -> (r: Vec<(Layer, u64, Point)>)
    requires
        committed@.len() == mapped_ordered(manager.spec_surfaces()).len(),
        placeable(committed@, output_size),
    ensures
        r@ == placed_for(mapped_ordered(manager.spec_surfaces()), committed@, Some(output_id), output_size),
{
    place_layer_surfaces(manager, committed, Some(output_id), output_size)
}

/// Every mapped layer surface, placed on an output of size `output_size`.
pub fn get_layer_surface_positions(manager: &LayerShellManager, committed: &[LayerSurfaceState], output_size: Size) -> (r: Vec<
    (u64, Point),
>)
    requires
        committed@.len() == mapped_ordered(manager.spec_surfaces()).len(),
        placeable(committed@, output_size),
    ensures
        r@ == placed_for(mapped_ordered(manager.spec_surfaces()), committed@, None, output_size).map_values(
            |e: (Layer, u64, Point)| (e.1, e.2),
        ),
{
    let all = place_layer_surfaces(manager, committed, None, output_size);
    let mut r: Vec<(u64, Point)> = Vec::new();
    let mut i: usize = 0;
    while i < all.len()
        invariant
            i <= all@.len(),
            r@ == all@.subrange(0, i as int).map_values(|e: (Layer, u64, Point)| (e.1, e.2)),
        decreases all.len() - i,
    {
        r.push((all[i].1, all[i].2));
        i += 1;
        assert(r@ =~= all@.subrange(0, i as int).map_values(|e: (Layer, u64, Point)| (e.1, e.2)));
    }
    assert(all@.subrange(0, all@.len() as int) =~= all@);
    r
}

/// The surface and position of each entry of `l` on layer `layer`.
pub open spec fn on_layer(l: Seq<(Layer, u64, Point)>, layer: Layer) -> Seq<(u64, Point)>
    decreases l.len(),
{
    if l.len() == 0 {
        Seq::empty()
    } else if l.last().0 == layer {
        on_layer(l.drop_last(), layer).push((l.last().1, l.last().2))
    } else {
        on_layer(l.drop_last(), layer)
    }
}

/// The lock surfaces, each at the origin.
pub open spec fn lock_stack(s: Seq<LockSurfaceInfo>) -> Seq<(u64, Point)> {
    s.map_values(|i: LockSurfaceInfo| (i.surface, Point { x: 0, y: 0 }))
}

/// The primary output of `m`, if there is one.
pub open spec fn primary_id(m: OutputMap) -> Option<OutputId> {
    match m.spec_primary() {
        Some(p) => Some(m.spec_outputs()[m.index_of(p)].id),
        None => None,
    }
}

/// The output rendered: the compositor's own, else the primary one.
pub open spec fn render_output(s: State) -> Option<OutputId> {
    match s.spec_output_id() {
        Some(o) => Some(o),
        None => primary_id(s.spec_output_manager().spec_map()),
    }
}

/// The layer surfaces placed for rendering: those of the rendered output,
/// or, when there is none, all of them on the top layer.
pub open spec fn render_layers(s: State, layers: Seq<LayerSurfaceInfo>, c: Seq<LayerSurfaceState>) -> Seq<(Layer, u64, Point)> {
    match render_output(s) {
        Some(o) => placed_for(layers, c, Some(o), s.spec_output_size()),
        None => placed_for(layers, c, None, s.spec_output_size()).map_values(|e: (Layer, u64, Point)| (Layer::Top, e.1, e.2)),
    }
}

/// What is drawn, bottom to top, when not only lock surfaces are: the
/// background and bottom layers, the tiled windows, the floating windows,
/// then the top and overlay layers.
pub open spec fn render_stack(s: State, l: Seq<(Layer, u64, Point)>) -> Seq<(u64, Point)> {
    let shown = visible_in(s.spec_order(), s.spec_windows(), s.active_ws(), s.spec_order().len() as int);
    on_layer(l, Layer::Background) + on_layer(l, Layer::Bottom) + surfaces_floating(shown, false) + surfaces_floating(shown, true)
        + on_layer(l, Layer::Top) + on_layer(l, Layer::Overlay)
}

proof fn lemma_floating_member(v: Seq<(u64, Point, bool)>, fl: bool, i: int)
    requires
        0 <= i < v.len(),
        v[i].2 == fl,
    ensures
        exists|m: int|
            0 <= m < surfaces_floating(v, fl).len() && #[trigger] surfaces_floating(v, fl)[m] == (v[i].0, v[i].1),
    decreases v.len(),
{
    let before = surfaces_floating(v.drop_last(), fl);
    if i == v.len() - 1 {
        assert(surfaces_floating(v, fl)[before.len() as int] == (v[i].0, v[i].1));
    } else {
        lemma_floating_member(v.drop_last(), fl, i);
        let m = choose|m: int| 0 <= m < before.len() && #[trigger] before[m] == (v.drop_last()[i].0, v.drop_last()[i].1);
        assert(surfaces_floating(v, fl)[m] == before[m]);
    }
}

proof fn lemma_on_layer_member(l: Seq<(Layer, u64, Point)>, layer: Layer, i: int)
    requires
        0 <= i < l.len(),
        l[i].0 == layer,
    ensures
        exists|m: int| 0 <= m < on_layer(l, layer).len() && #[trigger] on_layer(l, layer)[m] == (l[i].1, l[i].2),
    decreases l.len(),
{
    let before = on_layer(l.drop_last(), layer);
    if i == l.len() - 1 {
        assert(on_layer(l, layer)[before.len() as int] == (l[i].1, l[i].2));
    } else {
        lemma_on_layer_member(l.drop_last(), layer, i);
        let m = choose|m: int| 0 <= m < before.len() && #[trigger] before[m] == (l.drop_last()[i].1, l.drop_last()[i].2);
        assert(on_layer(l, layer)[m] == before[m]);
    }
}

/// Where entry `e` of part `p` (0 background, 1 bottom, 2 tiled windows,
/// 3 floating windows, 4 top, 5 overlay) of the render stack lands, given
/// the parts in order.
proof fn lemma_part_index(parts: Seq<Seq<(u64, Point)>>, p: int, m: int)
    requires
        parts.len() == 6,
        0 <= p < 6,
        0 <= m < parts[p].len(),
    ensures
        ({
            let r = parts[0] + parts[1] + parts[2] + parts[3] + parts[4] + parts[5];
            let off: int = if p == 0 {
                0int
            } else if p == 1 {
                parts[0].len() as int
            } else if p == 2 {
                (parts[0].len() + parts[1].len()) as int
            } else if p == 3 {
                (parts[0].len() + parts[1].len() + parts[2].len()) as int
            } else if p == 4 {
                (parts[0].len() + parts[1].len() + parts[2].len() + parts[3].len()) as int
            } else {
                (parts[0].len() + parts[1].len() + parts[2].len() + parts[3].len() + parts[4].len()) as int
            };
            &&& 0 <= off + m < r.len()
            &&& r[off + m] == parts[p][m]
        }),
{
    let a1 = parts[0] + parts[1];
    let a2 = a1 + parts[2];
    let a3 = a2 + parts[3];
    let a4 = a3 + parts[4];
    let r = a4 + parts[5];
    if p == 0 {
        assert(a1[m] == parts[0][m]);
        assert(a2[m] == a1[m]);
        assert(a3[m] == a2[m]);
        assert(a4[m] == a3[m]);
    } else if p == 1 {
        let o = parts[0].len() + m;
        assert(a1[o] == parts[1][m]);
        assert(a2[o] == a1[o]);
        assert(a3[o] == a2[o]);
        assert(a4[o] == a3[o]);
    } else if p == 2 {
        let o = a1.len() + m;
        assert(a2[o] == parts[2][m]);
        assert(a3[o] == a2[o]);
        assert(a4[o] == a3[o]);
    } else if p == 3 {
        let o = a2.len() + m;
        assert(a3[o] == parts[3][m]);
        assert(a4[o] == a3[o]);
    } else if p == 4 {
        let o = a3.len() + m;
        assert(a4[o] == parts[4][m]);
    } else {
        let o = a4.len() + m;
        assert(r[o] == parts[5][m]);
    }
}

/// Law of the render stack when only lock surfaces are not drawn: every
/// shown tiled window is drawn below every shown floating window; the
/// background and bottom layer surfaces are drawn below every shown window,
/// and every shown window below the top and overlay layer surfaces.
pub proof fn lemma_render_order(s: State, l: Seq<(Layer, u64, Point)>, i: int, j: int, k: int)
    ensures
        ({
            let shown = visible_in(s.spec_order(), s.spec_windows(), s.active_ws(), s.spec_order().len() as int);
            let r = render_stack(s, l);
            &&& (0 <= i < shown.len() && 0 <= j < shown.len() && !shown[i].2 && shown[j].2) ==> exists|a: int, b: int|
                0 <= a < b < r.len() && #[trigger] r[a] == (shown[i].0, shown[i].1) && #[trigger] r[b] == (shown[j].0, shown[j].1)
            &&& (0 <= i < shown.len() && 0 <= k < l.len() && (l[k].0 == Layer::Background || l[k].0 == Layer::Bottom))
                ==> exists|a: int, b: int|
                0 <= a < b < r.len() && #[trigger] r[a] == (l[k].1, l[k].2) && #[trigger] r[b] == (shown[i].0, shown[i].1)
            &&& (0 <= i < shown.len() && 0 <= k < l.len() && (l[k].0 == Layer::Top || l[k].0 == Layer::Overlay))
                ==> exists|a: int, b: int|
                0 <= a < b < r.len() && #[trigger] r[a] == (shown[i].0, shown[i].1) && #[trigger] r[b] == (l[k].1, l[k].2)
        }),
{
    let shown = visible_in(s.spec_order(), s.spec_windows(), s.active_ws(), s.spec_order().len() as int);
    let parts = seq![
        on_layer(l, Layer::Background),
        on_layer(l, Layer::Bottom),
        surfaces_floating(shown, false),
        surfaces_floating(shown, true),
        on_layer(l, Layer::Top),
        on_layer(l, Layer::Overlay),
    ];
    assert(parts[0] == on_layer(l, Layer::Background));
    assert(parts[1] == on_layer(l, Layer::Bottom));
    assert(parts[2] == surfaces_floating(shown, false));
    assert(parts[3] == surfaces_floating(shown, true));
    assert(parts[4] == on_layer(l, Layer::Top));
    assert(parts[5] == on_layer(l, Layer::Overlay));
    let r = render_stack(s, l);
    assert(r == parts[0] + parts[1] + parts[2] + parts[3] + parts[4] + parts[5]);
    let o2 = parts[0].len() + parts[1].len();
    let o3 = o2 + parts[2].len();
    let o4 = o3 + parts[3].len();
    let o5 = o4 + parts[4].len();
    // The index in the stack of window entry `i`.
    if 0 <= i < shown.len() {
        let pi: int = if shown[i].2 { 3 } else { 2 };
        lemma_floating_member(shown, shown[i].2, i);
        let mi = choose|m: int|
            0 <= m < surfaces_floating(shown, shown[i].2).len() && #[trigger] surfaces_floating(shown, shown[i].2)[m] == (
            shown[i].0, shown[i].1);
        lemma_part_index(parts, pi, mi);
        let ai = (if pi == 2 { o2 } else { o3 }) + mi;
        assert(r[ai] == (shown[i].0, shown[i].1));
        assert(o2 <= ai < o4);
        if 0 <= j < shown.len() && !shown[i].2 && shown[j].2 {
            lemma_floating_member(shown, true, j);
            let mj = choose|m: int| 0 <= m < surfaces_floating(shown, true).len() && #[trigger] surfaces_floating(shown, true)[m] == (
                shown[j].0, shown[j].1);
            lemma_part_index(parts, 3, mj);
            assert(r[o3 + mj] == (shown[j].0, shown[j].1));
            assert(ai < o3 + mj);
        }
        if 0 <= k < l.len() && (l[k].0 == Layer::Background || l[k].0 == Layer::Bottom) {
            lemma_on_layer_member(l, l[k].0, k);
            let mk = choose|m: int| 0 <= m < on_layer(l, l[k].0).len() && #[trigger] on_layer(l, l[k].0)[m] == (l[k].1, l[k].2);
            if l[k].0 == Layer::Background {
                lemma_part_index(parts, 0, mk);
                assert(r[mk] == (l[k].1, l[k].2));
            } else {
                lemma_part_index(parts, 1, mk);
                assert(r[parts[0].len() + mk] == (l[k].1, l[k].2));
            }
        }
        if 0 <= k < l.len() && (l[k].0 == Layer::Top || l[k].0 == Layer::Overlay) {
            lemma_on_layer_member(l, l[k].0, k);
            let mk = choose|m: int| 0 <= m < on_layer(l, l[k].0).len() && #[trigger] on_layer(l, l[k].0)[m] == (l[k].1, l[k].2);
            if l[k].0 == Layer::Top {
                lemma_part_index(parts, 4, mk);
                assert(r[o4 + mk] == (l[k].1, l[k].2));
            } else {
                lemma_part_index(parts, 5, mk);
                assert(r[o5 + mk] == (l[k].1, l[k].2));
            }
        }
    }
}

fn push_layer(out: &mut Vec<(u64, Point)>, l: &Vec<(Layer, u64, Point)>, layer: Layer)
    ensures
        final(out)@ == old(out)@ + on_layer(l@, layer),
{
    let ghost start = out@;
    let mut i: usize = 0;
    while i < l.len()
        invariant
            i <= l@.len(),
            out@ == start + on_layer(l@.subrange(0, i as int), layer),
        decreases l.len() - i,
    {
        let ghost next = l@.subrange(0, i + 1);
        assert(next.drop_last() =~= l@.subrange(0, i as int));
        if l[i].0 == layer {
            out.push((l[i].1, l[i].2));
        }
        i += 1;
        assert(out@ =~= start + on_layer(next, layer));
    }
    assert(l@.subrange(0, l@.len() as int) =~= l@);
}

fn append_all(out: &mut Vec<(u64, Point)>, v: Vec<(u64, Point)>)
    ensures
        final(out)@ == old(out)@ + v@,
{
    let mut v = v;
    out.append(&mut v);
}

/// The surfaces to draw, bottom to top, with their positions: only the lock
/// surfaces while the session is locked with one; otherwise the layer
/// surfaces around the windows. `committed` holds the committed state of
/// each mapped layer surface of `layers`, bottom layer first.
pub fn stacked_surfaces_for_render(
    state: &State,
    locks: &SessionLockManager,
    layers: &LayerShellManager,
    committed: &[LayerSurfaceState],
) -> (r: Vec<(u64, Point)>)
    requires
        state.wf(),
        committed@.len() == mapped_ordered(layers.spec_surfaces()).len(),
        placeable(committed@, state.spec_output_size()),
    ensures
        r@ == (if locks.spec_locked() && locks.spec_surfaces().len() > 0 {
            lock_stack(locks.spec_surfaces())
        } else {
            render_stack(*state, render_layers(*state, mapped_ordered(layers.spec_surfaces()), committed@))
        }),
{
    if locks.should_render_only_lock_surfaces() {
        let s = locks.lock_surfaces();
        let mut r: Vec<(u64, Point)> = Vec::new();
        let mut i: usize = 0;
        while i < s.len()
            invariant
                i <= s@.len(),
                r@ == lock_stack(s@.subrange(0, i as int)),
            decreases s.len() - i,
        {
            r.push((s[i].surface, Point { x: 0, y: 0 }));
            i += 1;
            assert(r@ =~= lock_stack(s@.subrange(0, i as int)));
        }
        assert(s@.subrange(0, s@.len() as int) =~= s@);
        return r;
    }
    let output = match state.output_id() {
        Some(o) => Some(o),
        None => match state.output_manager().map().primary() {
            Some(o) => Some(o.id),
            None => None,
        },
    };
    let size = state.output_size();
    let placed = match output {
        Some(oid) => get_layer_surfaces_with_positions(layers, committed, oid, size),
        None => {
            let all = get_layer_surface_positions(layers, committed, size);
            let mut v: Vec<(Layer, u64, Point)> = Vec::new();
            let mut i: usize = 0;
            while i < all.len()
                invariant
                    i <= all@.len(),
                    v@ == all@.subrange(0, i as int).map_values(|e: (u64, Point)| (Layer::Top, e.0, e.1)),
                decreases all.len() - i,
            {
                v.push((Layer::Top, all[i].0, all[i].1));
                i += 1;
                assert(v@ =~= all@.subrange(0, i as int).map_values(|e: (u64, Point)| (Layer::Top, e.0, e.1)));
            }
            assert(all@.subrange(0, all@.len() as int) =~= all@);
            let ghost p = placed_for(mapped_ordered(layers.spec_surfaces()), committed@, None, size);
            assert(v@ =~= p.map_values(|e: (Layer, u64, Point)| (Layer::Top, e.1, e.2)));
            v
        },
    };
    assert(placed@ == render_layers(*state, mapped_ordered(layers.spec_surfaces()), committed@));
    let mut r: Vec<(u64, Point)> = Vec::new();
    push_layer(&mut r, &placed, Layer::Background);
    push_layer(&mut r, &placed, Layer::Bottom);
    append_all(&mut r, state.tiled_surfaces());
    append_all(&mut r, state.floating_surfaces());
    push_layer(&mut r, &placed, Layer::Top);
    push_layer(&mut r, &placed, Layer::Overlay);
    assert(r@ =~= render_stack(*state, placed@));
    r
}

} // verus!
