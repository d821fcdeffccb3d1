use vitrum::geometry::{Rect, Size};
use vitrum::layout::{centered_geometry, LayoutEngine, LayoutMode, LayoutWindow};
use vitrum::window::{WindowFlags, WindowId};

fn tiled_windows(count: usize) -> Vec<LayoutWindow> {
    (0..count)
        .map(|i| LayoutWindow { id: WindowId(i as u64 + 1), flags: WindowFlags::new(), geometry: Rect::from_size(0, 0) })
        .collect()
}

/// The output whose available area, with outer gap 12, is (12, 12, 1896, 1056).
fn output_1920x1080() -> Size {
    Size::new(1920, 1080)
}

fn available_1920x1080() -> Rect {
    Rect::new(12, 12, 1896, 1056)
}

/// An engine whose available area on a 1000x800 output is the whole output.
fn engine_1000x800() -> LayoutEngine {
    let mut engine = LayoutEngine::new();
    engine.set_gaps(8, 0);
    engine
}

fn available_1000x800() -> Rect {
    Rect::new(0, 0, 1000, 800)
}

fn dwindle(engine: &LayoutEngine, count: usize, output: Size) -> Vec<(WindowId, Rect)> {
    engine.arrange_workspace(1, output, &tiled_windows(count), 0)
}

fn master_stack(engine: &mut LayoutEngine, count: usize, output: Size, ratio: f32) -> Vec<(WindowId, Rect)> {
    engine.set_workspace_layout(1, LayoutMode::MasterStack);
    let available = engine.available_area(output);
    let master_extent = (available.size.w as f32 * ratio) as i32;
    engine.arrange_workspace(1, output, &tiled_windows(count), master_extent)
}

fn overlaps(a: Rect, b: Rect) -> bool {
    a.loc.x < b.loc.x + b.size.w
        && a.loc.x + a.size.w > b.loc.x
        && a.loc.y < b.loc.y + b.size.h
        && a.loc.y + a.size.h > b.loc.y
}

#[test]
fn test_dwindle_single_window_fills_available() {
    let engine = LayoutEngine::new();
    let result = dwindle(&engine, 1, output_1920x1080());
    assert_eq!(result.len(), 1);
    assert_eq!(result[0].1, available_1920x1080());
}

#[test]
fn test_dwindle_two_windows_split_horizontal() {
    let engine = engine_1000x800();
    let available = available_1000x800();
    let result = dwindle(&engine, 2, Size::new(1000, 800));
    assert_eq!(result.len(), 2);
    assert_eq!(result[0].1.loc, available.loc);
    let total_width = result[0].1.size.w + result[1].1.size.w + engine.gaps_inner;
    assert_eq!(total_width, available.size.w);
}

#[test]
fn test_dwindle_three_windows() {
    let engine = engine_1000x800();
    let result = dwindle(&engine, 3, Size::new(1000, 800));
    assert_eq!(result.len(), 3);
    for (_, geo) in &result {
        assert!(geo.size.w > 0);
        assert!(geo.size.h > 0);
    }
}

#[test]
fn test_dwindle_empty_returns_empty() {
    let engine = engine_1000x800();
    let result = dwindle(&engine, 0, Size::new(1000, 800));
    assert!(result.is_empty());
}

#[test]
fn test_dwindle_no_overlaps() {
    let engine = LayoutEngine::new();
    let result = dwindle(&engine, 5, output_1920x1080());
    for i in 0..result.len() {
        for j in (i + 1)..result.len() {
            assert!(!overlaps(result[i].1, result[j].1), "Window {} overlaps with window {}", i, j);
        }
    }
}

#[test]
fn test_dwindle_all_within_bounds() {
    let engine = LayoutEngine::new();
    let available = available_1920x1080();
    let result = dwindle(&engine, 4, output_1920x1080());
    for (_, geo) in &result {
        assert!(geo.loc.x >= available.loc.x);
        assert!(geo.loc.y >= available.loc.y);
        assert!(geo.loc.x + geo.size.w <= available.loc.x + available.size.w);
        assert!(geo.loc.y + geo.size.h <= available.loc.y + available.size.h);
    }
}

#[test]
fn test_dwindle_geometry_positive_size() {
    let engine = LayoutEngine::new();
    for count in 1..=8 {
        let result = dwindle(&engine, count, output_1920x1080());
        for (_, geo) in &result {
            assert!(geo.size.w > 0, "Window width must be positive for {} windows", count);
            assert!(geo.size.h > 0, "Window height must be positive for {} windows", count);
        }
    }
}

#[test]
fn test_master_stack_single_window_fills_available() {
    let mut engine = engine_1000x800();
    let result = master_stack(&mut engine, 1, Size::new(1000, 800), 0.5);
    assert_eq!(result.len(), 1);
    assert_eq!(result[0].1, available_1000x800());
}

#[test]
fn test_master_stack_two_windows_master_left() {
    let mut engine = engine_1000x800();
    let available = available_1000x800();
    let result = master_stack(&mut engine, 2, Size::new(1000, 800), 0.5);
    assert_eq!(result.len(), 2);
    assert_eq!(result[0].1.loc, available.loc);
    assert!(result[1].1.loc.x > result[0].1.loc.x);
}

#[test]
fn test_master_stack_master_ratio() {
    let mut engine = engine_1000x800();
    let available = available_1000x800();
    let result = master_stack(&mut engine, 2, Size::new(1000, 800), 0.6);
    let master_ratio = result[0].1.size.w as f32 / available.size.w as f32;
    assert!((master_ratio - 0.6).abs() < 0.05, "Master ratio was {}", master_ratio);
}

#[test]
fn test_master_stack_stack_splits_vertically() {
    let mut engine = engine_1000x800();
    let result = master_stack(&mut engine, 4, Size::new(1000, 800), 0.5);
    assert_eq!(result.len(), 4);
    for i in 2..4 {
        assert!(result[i].1.loc.y > result[i - 1].1.loc.y);
    }
}

#[test]
fn test_master_stack_no_overlaps() {
    let mut engine = LayoutEngine::new();
    let result = master_stack(&mut engine, 5, output_1920x1080(), 0.5);
    for i in 0..result.len() {
        for j in (i + 1)..result.len() {
            assert!(!overlaps(result[i].1, result[j].1), "Window {} overlaps with window {}", i, j);
        }
    }
}

#[test]
fn test_floating_geometry_centered() {
    let output = Size::new(1920, 1080);
    let geo = centered_geometry(output, (1920.0f32 * 0.6) as i32, (1080.0f32 * 0.6) as i32);
    assert_eq!(geo.size.w, (1920.0 * 0.6) as i32);
    assert_eq!(geo.size.h, (1080.0 * 0.6) as i32);
    assert_eq!(geo.loc.x, (1920 - geo.size.w) / 2);
    assert_eq!(geo.loc.y, (1080 - geo.size.h) / 2);
}

#[test]
fn test_floating_geometry_within_bounds() {
    let output = Size::new(800, 600);
    let geo = centered_geometry(output, (800.0f32 * 0.6) as i32, (600.0f32 * 0.6) as i32);
    assert!(geo.size.w > 0);
    assert!(geo.size.h > 0);
    assert!(geo.loc.x >= 0);
    assert!(geo.loc.y >= 0);
    assert!(geo.loc.x + geo.size.w <= output.w);
    assert!(geo.loc.y + geo.size.h <= output.h);
}

#[test]
fn test_gaps_reduce_available_space() {
    let mut engine_no_gaps = LayoutEngine::new();
    engine_no_gaps.set_gaps(0, 0);

    let mut engine_with_gaps = LayoutEngine::new();
    engine_with_gaps.set_gaps(10, 20);

    let output = Size::new(1920, 1080);

    let result_no = dwindle(&engine_no_gaps, 1, output);
    let result_gap = dwindle(&engine_with_gaps, 1, output);

    assert!(result_gap[0].1.size.w < result_no[0].1.size.w);
    assert!(result_gap[0].1.size.h < result_no[0].1.size.h);
}

#[test]
fn test_workspace_specific_layout() {
    let mut engine = LayoutEngine::new();
    engine.set_workspace_layout(2, LayoutMode::MasterStack);
    assert_eq!(engine.get_workspace_layout(1), LayoutMode::Dwindle);
    assert_eq!(engine.get_workspace_layout(2), LayoutMode::MasterStack);
}

#[test]
fn dwindle_two_windows_exact_split() {
    let engine = engine_1000x800();
    let result = dwindle(&engine, 2, Size::new(1000, 800));
    assert_eq!(result[0].1, Rect::new(0, 0, 496, 800));
    assert_eq!(result[1].1, Rect::new(504, 0, 496, 800));
}

#[test]
fn dwindle_three_windows_exact_split() {
    let engine = engine_1000x800();
    let result = dwindle(&engine, 3, Size::new(1000, 800));
    assert_eq!(result[0].1, Rect::new(0, 0, 1000, 396));
    assert_eq!(result[1].1, Rect::new(0, 404, 496, 396));
    assert_eq!(result[2].1, Rect::new(504, 404, 496, 396));
}

#[test]
fn master_stack_exact_rects() {
    let mut engine = engine_1000x800();
    let result = master_stack(&mut engine, 3, Size::new(1000, 800), 0.5);
    assert_eq!(result[0].1, Rect::new(0, 0, 496, 800));
    assert_eq!(result[1].1, Rect::new(504, 0, 496, 396));
    assert_eq!(result[2].1, Rect::new(504, 404, 496, 396));
}

#[test]
fn floating_and_fullscreen_windows_are_not_tiled() {
    let engine = LayoutEngine::new();
    let mut windows = tiled_windows(3);
    windows[0].flags.floating = true;
    windows[2].flags.fullscreen = true;
    let result = engine.arrange_workspace(1, output_1920x1080(), &windows, 0);
    assert_eq!(result, vec![(WindowId(2), available_1920x1080())]);
}

#[test]
fn floating_mode_keeps_geometry() {
    let mut engine = LayoutEngine::new();
    engine.set_workspace_layout(4, LayoutMode::Floating);
    let mut windows = tiled_windows(1);
    windows[0].geometry = Rect::new(5, 6, 70, 80);
    let result = engine.arrange_workspace(4, output_1920x1080(), &windows, 0);
    assert_eq!(result, vec![(WindowId(1), Rect::new(5, 6, 70, 80))]);
}
