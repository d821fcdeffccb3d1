use vitrum::wallpaper::{is_image_file, parse_hex_color, FitMode, WallpaperConfig, WallpaperState};

fn channels(hex: &str) -> [f32; 4] {
    let (r, g, b, a) = parse_hex_color(hex).unwrap();
    [r as f32 / 255.0, g as f32 / 255.0, b as f32 / 255.0, a as f32 / 255.0]
}

#[test]
fn test_parse_color_rgb() {
    let c = channels("#1C1C2E");
    assert!((c[0] - 0.11).abs() < 0.01);
    assert!((c[1] - 0.11).abs() < 0.01);
    assert!((c[2] - 0.18).abs() < 0.01);
    assert_eq!(c[3], 1.0);
}

#[test]
fn test_parse_color_rgba() {
    let c = channels("#FF0000FF");
    assert_eq!(c[0], 1.0);
    assert_eq!(c[1], 0.0);
    assert_eq!(c[2], 0.0);
    assert_eq!(c[3], 1.0);
}

#[test]
fn test_fit_mode_parsing() {
    assert_eq!(FitMode::from_str("fill"), FitMode::Fill);
    assert_eq!(FitMode::from_str("FIT"), FitMode::Fit);
    assert_eq!(FitMode::from_str("Center"), FitMode::Center);
    assert_eq!(FitMode::from_str("TILE"), FitMode::Tile);
    assert_eq!(FitMode::from_str("unknown"), FitMode::Fill);
}

#[test]
fn test_is_image_file() {
    assert!(is_image_file("test.png"));
    assert!(is_image_file("test.jpg"));
    assert!(is_image_file("test.JPEG"));
    assert!(!is_image_file("test.txt"));
    assert!(!is_image_file("test"));
}

#[test]
fn parse_color_exact_bytes_and_rejects() {
    assert_eq!(parse_hex_color("#1C1C2E"), Some((0x1c, 0x1c, 0x2e, 0xff)));
    assert_eq!(parse_hex_color("11223344"), Some((0x11, 0x22, 0x33, 0x44)));
    assert_eq!(parse_hex_color("#12345"), None);
    assert_eq!(parse_hex_color("#GG0000"), None);
}

#[test]
fn image_file_uses_last_component() {
    assert!(is_image_file("/home/user/pics/sunset.webp"));
    assert!(!is_image_file("/home/user/pics.png/notes"));
}

fn config(mode: &str) -> WallpaperConfig {
    WallpaperConfig {
        mode: mode.to_string(),
        color: "#000000".to_string(),
        path: Some("/walls/a.png".to_string()),
        fit: "tile".to_string(),
        dir: Some("/walls".to_string()),
        interval: Some(10),
    }
}

#[test]
fn image_mode_shows_configured_path() {
    let state = WallpaperState::new(&config("image"), 0);
    assert_eq!(state.current_image_path(), Some(&"/walls/a.png".to_string()));
    assert_eq!(state.current_fit_mode(), Some(FitMode::Tile));
    assert!(!state.is_solid());
}

#[test]
fn slideshow_keeps_sorted_images_and_advances() {
    let mut state = WallpaperState::new(&config("slideshow"), 1000);
    state.set_slideshow_entries(vec!["b.jpg".to_string(), "notes.txt".to_string(), "a.png".to_string()]);
    assert_eq!(state.current_image_path(), Some(&"/walls/a.png".to_string()));
    assert!(!state.update_slideshow(5000));
    assert!(state.update_slideshow(11000));
    assert_eq!(state.current_image_path(), Some(&"/walls/b.jpg".to_string()));
}

#[test]
fn unknown_mode_is_a_solid_colour() {
    let state = WallpaperState::new(&config("nonsense"), 0);
    assert!(state.is_solid());
    assert_eq!(state.background_color(), Some((0, 0, 0, 0xff)));
    assert_eq!(state.current_image_path(), None);
}
