use vitrum::geometry::Point;
use vitrum::output_id::OutputId;
use vitrum::state::State;
use vitrum::theme::{apply_theme_gaps, apply_theme_patch, ThemePatch, ThemeSettings};

fn settings() -> ThemeSettings {
    ThemeSettings {
        accent: "#89b4fa".to_string(),
        background: "#1e1e2e".to_string(),
        surface: "#313244".to_string(),
        surface_raised: "#45475a".to_string(),
        text: "#cdd6f4".to_string(),
        text_muted: "#a6adc8".to_string(),
        border: "#585b70".to_string(),
        error: "#f38ba8".to_string(),
        warning: "#f9e2af".to_string(),
        success: "#a6e3a1".to_string(),
        border_width: 2,
        corner_radius: 8,
        cursor_theme: "Adwaita".to_string(),
        cursor_size: 24,
        icon_theme: "Papirus".to_string(),
        color_scheme: "prefer-dark".to_string(),
        sound_theme: "freedesktop".to_string(),
        dpi: 96,
        gdk_scale: 1,
        gaps_inner: 8,
        gaps_outer: 12,
        font_ui: "Inter".to_string(),
        font_ui_size: 11,
        font_mono: "JetBrains Mono".to_string(),
        font_mono_size: 10,
        font_document: "Inter".to_string(),
        font_document_size: 11,
    }
}

fn empty_patch() -> ThemePatch {
    ThemePatch {
        accent: None,
        background: None,
        surface: None,
        surface_raised: None,
        text: None,
        text_muted: None,
        border: None,
        error: None,
        warning: None,
        success: None,
        border_width: None,
        corner_radius: None,
        cursor_theme: None,
        cursor_size: None,
        icon_theme: None,
        color_scheme: None,
        sound_theme: None,
        dpi: None,
        gdk_scale: None,
        gaps_inner: None,
        gaps_outer: None,
        font_ui: None,
        font_ui_size: None,
        font_mono: None,
        font_mono_size: None,
        font_document: None,
        font_document_size: None,
    }
}

#[test]
fn patch_changes_only_given_settings() {
    let mut s = settings();
    let patch = ThemePatch { accent: Some("#ff0000".to_string()), cursor_size: Some(32), gaps_outer: Some(0), ..empty_patch() };
    let mut state = State::new(OutputId(1));
    state.take_redraw_request();
    apply_theme_patch(&mut s, patch, &mut state);
    assert!(state.take_redraw_request());
    assert_eq!(s.accent, "#ff0000");
    assert_eq!(s.cursor_size, 32);
    assert_eq!(s.gaps_outer, 0);
    assert_eq!(s.background, "#1e1e2e");
    assert_eq!(s.font_mono, "JetBrains Mono");
    assert_eq!(s.gaps_inner, 8);
}

#[test]
fn theme_gaps_relayout_windows() {
    let mut state = State::new(OutputId(1));
    state.add_window(10);
    assert_eq!(state.tiled_surfaces(), vec![(10, Point::new(12, 12))]);
    let mut s = settings();
    apply_theme_patch(&mut s, ThemePatch { gaps_outer: Some(0), ..empty_patch() }, &mut state);
    assert_eq!(state.tiled_surfaces(), vec![(10, Point::new(0, 0))]);
    apply_theme_gaps(&settings(), &mut state);
    assert_eq!(state.tiled_surfaces(), vec![(10, Point::new(12, 12))]);
}

#[test]
fn theme_snapshot_reports_the_settings() {
    let s = settings();
    let snap = vitrum::theme::build_theme_snapshot(&s);
    assert_eq!(snap.accent, s.accent);
    assert_eq!(snap.font_mono, "JetBrains Mono");
    assert_eq!(snap.gaps_inner, 8);
    assert_eq!(snap.gaps_outer, 12);
    assert_eq!(snap.cursor_size, s.cursor_size);
}
