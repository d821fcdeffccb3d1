use vitrum::geometry::{Point, Rect, Size};
use vitrum::layer_shell::{
    compute_layer_surface_position, compute_tiling_area, get_layer_surfaces_for_output, layer_matches_output,
    layer_surface_output, Anchor, ExclusiveZone, Layer, LayerShellManager, LayerSurfaceInfo, LayerSurfaceState, Margins,
};
use vitrum::output_id::OutputId;

#[test]
fn test_layer_ordering() {
    let _ = Layer::Background;
    let _ = Layer::Bottom;
    let _ = Layer::Top;
    let _ = Layer::Overlay;
}

#[test]
fn test_layer_output_matcher() {
    let output = OutputId(7);

    assert!(layer_matches_output(None, output));
    assert!(layer_matches_output(Some(output), output));
    assert!(!layer_matches_output(Some(OutputId(8)), output));
}

fn info(surface: u64, layer: Layer, output: Option<OutputId>) -> LayerSurfaceInfo {
    LayerSurfaceInfo::new(surface, layer, format!("ns{}", surface), output)
}

#[test]
fn mapped_surfaces_sorted_by_layer_keeping_order() {
    let mut m = LayerShellManager::new();
    m.add_surface(info(1, Layer::Overlay, None));
    m.add_surface(info(2, Layer::Background, None));
    m.add_surface(info(3, Layer::Top, None));
    m.add_surface(info(4, Layer::Background, None));
    m.add_surface(info(5, Layer::Bottom, None));
    for s in [1, 2, 3, 5] {
        m.mark_mapped(s);
    }
    let order: Vec<u64> = m.mapped_surfaces_ordered().iter().map(|i| i.surface).collect();
    assert_eq!(order, vec![2, 5, 3, 1]);
    m.mark_unmapped(3);
    let order: Vec<u64> = m.mapped_surfaces_ordered().iter().map(|i| i.surface).collect();
    assert_eq!(order, vec![2, 5, 1]);
}

#[test]
fn surfaces_for_layer_includes_unmapped() {
    let mut m = LayerShellManager::new();
    m.add_surface(info(1, Layer::Top, None));
    m.add_surface(info(2, Layer::Bottom, None));
    m.add_surface(info(3, Layer::Top, None));
    let top: Vec<u64> = m.surfaces_for_layer(Layer::Top).iter().map(|i| i.surface).collect();
    assert_eq!(top, vec![1, 3]);
    assert_eq!(m.get_layer(2), Some(Layer::Bottom));
    assert_eq!(m.get_layer(9), None);
}

#[test]
fn pending_surfaces_configured_once() {
    let mut m = LayerShellManager::new();
    m.add_surface(info(1, Layer::Top, None));
    m.add_pending(1);
    m.add_pending(1);
    m.add_pending(42);
    assert_eq!(m.configure_pending(), vec![1]);
    assert!(m.configure_pending().is_empty());
}

#[test]
fn remove_surface_forgets_record_and_wait() {
    let mut m = LayerShellManager::new();
    m.add_surface(info(1, Layer::Top, None));
    m.add_surface(info(2, Layer::Top, None));
    m.add_pending(1);
    m.remove_surface(1);
    assert!(!m.is_layer_surface(1));
    assert!(m.is_layer_surface(2));
    assert!(m.configure_pending().is_empty());
}

#[test]
fn surfaces_for_output_filter_by_output() {
    let mut m = LayerShellManager::new();
    m.add_surface(info(1, Layer::Top, Some(OutputId(1))));
    m.add_surface(info(2, Layer::Bottom, Some(OutputId(2))));
    m.add_surface(info(3, Layer::Background, None));
    for s in [1, 2, 3] {
        m.mark_mapped(s);
    }
    assert_eq!(get_layer_surfaces_for_output(&m, OutputId(1)), vec![(Layer::Background, 3), (Layer::Top, 1)]);
}

#[test]
fn new_layer_surface_output_falls_back() {
    assert_eq!(layer_surface_output(Some(OutputId(3)), Some(OutputId(2)), Some(OutputId(1))), Some(OutputId(3)));
    assert_eq!(layer_surface_output(None, Some(OutputId(2)), Some(OutputId(1))), Some(OutputId(2)));
    assert_eq!(layer_surface_output(None, None, Some(OutputId(1))), Some(OutputId(1)));
    assert_eq!(layer_surface_output(None, None, None), None);
}

fn state(anchor: Anchor, w: i32, h: i32, zone: ExclusiveZone) -> LayerSurfaceState {
    LayerSurfaceState {
        anchor,
        size: Size::new(w, h),
        margin: Margins { top: 5, right: 6, bottom: 7, left: 8 },
        exclusive_zone: zone,
    }
}

const TOP: Anchor = Anchor { top: true, bottom: false, left: false, right: false };
const BOTTOM_RIGHT: Anchor = Anchor { top: false, bottom: true, left: false, right: true };
const NONE: Anchor = Anchor { top: false, bottom: false, left: false, right: false };

#[test]
fn layer_positions() {
    let out = Size::new(1000, 800);
    assert_eq!(compute_layer_surface_position(&state(TOP, 200, 30, ExclusiveZone::Neutral), out), Point::new(400, 5));
    assert_eq!(
        compute_layer_surface_position(&state(BOTTOM_RIGHT, 100, 50, ExclusiveZone::Neutral), out),
        Point::new(1000 - 100 - 6, 800 - 50 - 7)
    );
    assert_eq!(compute_layer_surface_position(&state(NONE, 0, 0, ExclusiveZone::Neutral), out), Point::new(0, 0));
}

#[test]
fn tiling_area_less_exclusive_zones() {
    let out = Size::new(1000, 800);
    let bar = state(TOP, 0, 30, ExclusiveZone::Exclusive(30));
    let ignored = state(TOP, 0, 30, ExclusiveZone::Neutral);
    assert_eq!(compute_tiling_area(&[bar, ignored], out), Rect::new(0, 30, 1000, 770));
    let huge = state(TOP, 0, 900, ExclusiveZone::Exclusive(900));
    assert_eq!(compute_tiling_area(&[huge], out), Rect::new(0, 900, 1000, 0));
}

#[test]
fn added_surface_found_and_removed_again() {
    let mut m = LayerShellManager::new();
    m.add_surface(info(1, Layer::Top, None));
    assert!(!m.is_layer_surface(5));
    m.add_surface(info(5, Layer::Overlay, Some(OutputId(2))));
    assert!(m.is_layer_surface(5));
    assert_eq!(m.get_layer(5), Some(Layer::Overlay));
    m.remove_surface(5);
    assert!(!m.is_layer_surface(5));
    assert_eq!(m.surfaces().len(), 1);
    assert_eq!(m.surfaces()[0].surface, 1);
}
