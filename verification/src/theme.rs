use vstd::prelude::*;
use crate::state::{laid_out_state, State};

verus! {

/// The theme, font and gap settings of the configuration that a theme
/// patch can change.
#[derive(Debug)]
pub struct ThemeSettings {
    pub accent: String,
    pub background: String,
    pub surface: String,
    pub surface_raised: String,
    pub text: String,
    pub text_muted: String,
    pub border: String,
    pub error: String,
    pub warning: String,
    pub success: String,
    pub border_width: u32,
    pub corner_radius: u32,
    pub cursor_theme: String,
    pub cursor_size: u32,
    pub icon_theme: String,
    pub color_scheme: String,
    pub sound_theme: String,
    pub dpi: u32,
    pub gdk_scale: u32,
    pub gaps_inner: u32,
    pub gaps_outer: u32,
    pub font_ui: String,
    pub font_ui_size: u32,
    pub font_mono: String,
    pub font_mono_size: u32,
    pub font_document: String,
    pub font_document_size: u32,
}

/// A change to some of the theme settings; `None` keeps a setting.
#[derive(Debug)]
pub struct ThemePatch {
    pub accent: Option<String>,
    pub background: Option<String>,
    pub surface: Option<String>,
    pub surface_raised: Option<String>,
    pub text: Option<String>,
    pub text_muted: Option<String>,
    pub border: Option<String>,
    pub error: Option<String>,
    pub warning: Option<String>,
    pub success: Option<String>,
    pub border_width: Option<u32>,
    pub corner_radius: Option<u32>,
    pub cursor_theme: Option<String>,
    pub cursor_size: Option<u32>,
    pub icon_theme: Option<String>,
    pub color_scheme: Option<String>,
    pub sound_theme: Option<String>,
    pub dpi: Option<u32>,
    pub gdk_scale: Option<u32>,
    pub gaps_inner: Option<u32>,
    pub gaps_outer: Option<u32>,
    pub font_ui: Option<String>,
    pub font_ui_size: Option<u32>,
    pub font_mono: Option<String>,
    pub font_mono_size: Option<u32>,
    pub font_document: Option<String>,
    pub font_document_size: Option<u32>,
}

/// What IPC tells of the theme: the colours, sizes, themes and fonts of the
/// settings, with the layout gaps.
#[derive(Debug)]
pub struct ThemeSnapshot {
    pub accent: String,
    pub background: String,
    pub surface: String,
    pub surface_raised: String,
    pub text: String,
    pub text_muted: String,
    pub border: String,
    pub error: String,
    pub warning: String,
    pub success: String,
    pub border_width: u32,
    pub gaps_inner: u32,
    pub gaps_outer: u32,
    pub corner_radius: u32,
    pub cursor_theme: String,
    pub cursor_size: u32,
    pub icon_theme: String,
    pub color_scheme: String,
    pub font_ui: String,
    pub font_ui_size: u32,
    pub font_mono: String,
    pub font_mono_size: u32,
    pub dpi: u32,
    pub gdk_scale: u32,
}

/// `r` reports the settings `s`: each field of the snapshot is the setting
/// of the same name.
pub open spec fn snapshot_of(s: ThemeSettings, r: ThemeSnapshot) -> bool {
    &&& r.accent@ == s.accent@
    &&& r.background@ == s.background@
    &&& r.surface@ == s.surface@
    &&& r.surface_raised@ == s.surface_raised@
    &&& r.text@ == s.text@
    &&& r.text_muted@ == s.text_muted@
    &&& r.border@ == s.border@
    &&& r.error@ == s.error@
    &&& r.warning@ == s.warning@
    &&& r.success@ == s.success@
    &&& r.border_width == s.border_width
    &&& r.gaps_inner == s.gaps_inner
    &&& r.gaps_outer == s.gaps_outer
    &&& r.corner_radius == s.corner_radius
    &&& r.cursor_theme@ == s.cursor_theme@
    &&& r.cursor_size == s.cursor_size
    &&& r.icon_theme@ == s.icon_theme@
    &&& r.color_scheme@ == s.color_scheme@
    &&& r.font_ui@ == s.font_ui@
    &&& r.font_ui_size == s.font_ui_size
    &&& r.font_mono@ == s.font_mono@
    &&& r.font_mono_size == s.font_mono_size
    &&& r.dpi == s.dpi
    &&& r.gdk_scale == s.gdk_scale
}

/// The snapshot of the theme that IPC reports.
pub fn build_theme_snapshot(s: &ThemeSettings) -> (r: ThemeSnapshot)
    ensures
        snapshot_of(*s, r),
{
    ThemeSnapshot {
        accent: s.accent.clone(),
        background: s.background.clone(),
        surface: s.surface.clone(),
        surface_raised: s.surface_raised.clone(),
        text: s.text.clone(),
        text_muted: s.text_muted.clone(),
        border: s.border.clone(),
        error: s.error.clone(),
        warning: s.warning.clone(),
        success: s.success.clone(),
        border_width: s.border_width,
        gaps_inner: s.gaps_inner,
        gaps_outer: s.gaps_outer,
        corner_radius: s.corner_radius,
        cursor_theme: s.cursor_theme.clone(),
        cursor_size: s.cursor_size,
        icon_theme: s.icon_theme.clone(),
        color_scheme: s.color_scheme.clone(),
        font_ui: s.font_ui.clone(),
        font_ui_size: s.font_ui_size,
        font_mono: s.font_mono.clone(),
        font_mono_size: s.font_mono_size,
        dpi: s.dpi,
        gdk_scale: s.gdk_scale,
    }
}

/// The value a patch gives a setting: the new one when given, else the old one.
pub open spec fn patched<T>(new: Option<T>, old: T) -> T {
    match new {
        Some(v) => v,
        None => old,
    }
}

fn take_string(slot: &mut String, new: Option<String>)
    ensures
        *final(slot) == patched(new, *old(slot)),
{
    if let Some(v) = new {
        *slot = v;
    }
}

fn take_count(slot: &mut u32, new: Option<u32>)
    ensures
        *final(slot) == patched(new, *old(slot)),
{
    if let Some(v) = new {
        *slot = v;
    }
}

/// The settings `s` after patch `p`: every given value replaces the old one.
pub open spec fn theme_patched(s: ThemeSettings, p: ThemePatch, r: ThemeSettings) -> bool {
    &&& r.accent == patched(p.accent, s.accent)
    &&& r.background == patched(p.background, s.background)
    &&& r.surface == patched(p.surface, s.surface)
    &&& r.surface_raised == patched(p.surface_raised, s.surface_raised)
    &&& r.text == patched(p.text, s.text)
    &&& r.text_muted == patched(p.text_muted, s.text_muted)
    &&& r.border == patched(p.border, s.border)
    &&& r.error == patched(p.error, s.error)
    &&& r.warning == patched(p.warning, s.warning)
    &&& r.success == patched(p.success, s.success)
    &&& r.border_width == patched(p.border_width, s.border_width)
    &&& r.corner_radius == patched(p.corner_radius, s.corner_radius)
    &&& r.cursor_theme == patched(p.cursor_theme, s.cursor_theme)
    &&& r.cursor_size == patched(p.cursor_size, s.cursor_size)
    &&& r.icon_theme == patched(p.icon_theme, s.icon_theme)
    &&& r.color_scheme == patched(p.color_scheme, s.color_scheme)
    &&& r.sound_theme == patched(p.sound_theme, s.sound_theme)
    &&& r.dpi == patched(p.dpi, s.dpi)
    &&& r.gdk_scale == patched(p.gdk_scale, s.gdk_scale)
    &&& r.gaps_inner == patched(p.gaps_inner, s.gaps_inner)
    &&& r.gaps_outer == patched(p.gaps_outer, s.gaps_outer)
    &&& r.font_ui == patched(p.font_ui, s.font_ui)
    &&& r.font_ui_size == patched(p.font_ui_size, s.font_ui_size)
    &&& r.font_mono == patched(p.font_mono, s.font_mono)
    &&& r.font_mono_size == patched(p.font_mono_size, s.font_mono_size)
    &&& r.font_document == patched(p.font_document, s.font_document)
    &&& r.font_document_size == patched(p.font_document_size, s.font_document_size)
}

/// Applies a theme patch to the settings alone.
fn patch_settings(settings: &mut ThemeSettings, patch: ThemePatch)
    ensures
        theme_patched(*old(settings), patch, *final(settings)),
{
    let ThemePatch {
        accent,
        background,
        surface,
        surface_raised,
        text,
        text_muted,
        border,
        error,
        warning,
        success,
        border_width,
        corner_radius,
        cursor_theme,
        cursor_size,
        icon_theme,
        color_scheme,
        sound_theme,
        dpi,
        gdk_scale,
        gaps_inner,
        gaps_outer,
        font_ui,
        font_ui_size,
        font_mono,
        font_mono_size,
        font_document,
        font_document_size,
    } = patch;
    take_string(&mut settings.accent, accent);
    take_string(&mut settings.background, background);
    take_string(&mut settings.surface, surface);
    take_string(&mut settings.surface_raised, surface_raised);
    take_string(&mut settings.text, text);
    take_string(&mut settings.text_muted, text_muted);
    take_string(&mut settings.border, border);
    take_string(&mut settings.error, error);
    take_string(&mut settings.warning, warning);
    take_string(&mut settings.success, success);
    take_count(&mut settings.border_width, border_width);
    take_count(&mut settings.corner_radius, corner_radius);
    take_string(&mut settings.cursor_theme, cursor_theme);
    take_count(&mut settings.cursor_size, cursor_size);
    take_string(&mut settings.icon_theme, icon_theme);
    take_string(&mut settings.color_scheme, color_scheme);
    take_string(&mut settings.sound_theme, sound_theme);
    take_count(&mut settings.dpi, dpi);
    take_count(&mut settings.gdk_scale, gdk_scale);
    take_count(&mut settings.gaps_inner, gaps_inner);
    take_count(&mut settings.gaps_outer, gaps_outer);
    take_string(&mut settings.font_ui, font_ui);
    take_count(&mut settings.font_ui_size, font_ui_size);
    take_string(&mut settings.font_mono, font_mono);
    take_count(&mut settings.font_mono_size, font_mono_size);
    take_string(&mut settings.font_document, font_document);
    take_count(&mut settings.font_document_size, font_document_size);
}

/// `b` is `a` after the window manager took the gaps `inner` and `outer`
/// and laid the windows out again, which asks for a redraw.
pub open spec fn gaps_applied(a: State, b: State, inner: u32, outer: u32) -> bool {
    exists|m: State| #![trigger laid_out_state(m, b)]
        m.wf() && crate::state::gaps_set(a, m, inner as i32, outer as i32) && laid_out_state(m, b)
}

/// The window manager takes the gaps of the settings (each cast to `i32`)
/// and lays the windows out again, which asks for a redraw.
pub fn apply_theme_gaps(settings: &ThemeSettings, state: &mut State)
    requires
        old(state).wf(),
    ensures
        final(state).wf(),
        gaps_applied(*old(state), *final(state), settings.gaps_inner, settings.gaps_outer),
{
    state.set_gaps(settings.gaps_inner as i32, settings.gaps_outer as i32);
    let ghost m = *state;
    state.apply_layout();
    assert(laid_out_state(m, *state));
}

/// Applies a theme patch: every value the patch gives replaces the setting;
/// then the window manager takes the resulting gaps, lays the windows out
/// again and a redraw is due.
pub fn apply_theme_patch(settings: &mut ThemeSettings, patch: ThemePatch, state: &mut State)
    requires
        old(state).wf(),
    ensures
        theme_patched(*old(settings), patch, *final(settings)),
        final(state).wf(),
        gaps_applied(*old(state), *final(state), final(settings).gaps_inner, final(settings).gaps_outer),
        final(state).spec_needs_redraw(),
{
    patch_settings(settings, patch);
    apply_theme_gaps(settings, state);
}

} // verus!
