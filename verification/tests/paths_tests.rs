use vitrum::autostart::{autostart_dirs, config_autostart_entry, is_desktop_file, AutostartSource};
use vitrum::launcher::executable_candidates;
use vitrum::wallpaper::{FitMode, WallpaperConfig, WallpaperState};

#[test]
fn candidates_search_each_path_directory_in_order() {
    let c = executable_candidates("foot", "/usr/local/bin:/usr/bin/");
    assert_eq!(c, vec!["/usr/local/bin/foot".to_string(), "/usr/bin/foot".to_string()]);
}

#[test]
fn candidates_of_a_path_are_the_path_itself() {
    let c = executable_candidates("./bin/foot", "/usr/bin");
    assert_eq!(c, vec!["./bin/foot".to_string()]);
}

#[test]
fn candidates_keep_empty_path_pieces() {
    let c = executable_candidates("foot", "/bin::");
    assert_eq!(c, vec!["/bin/foot".to_string(), "foot".to_string(), "foot".to_string()]);
}

#[test]
fn desktop_files_are_told_by_extension() {
    assert!(is_desktop_file("/etc/xdg/autostart/nm-applet.desktop"));
    assert!(!is_desktop_file("/etc/xdg/autostart/nm-applet.Desktop"));
    assert!(!is_desktop_file("/etc/xdg/autostart/.desktop"));
    assert!(!is_desktop_file("/etc/xdg/autostart/readme"));
}

#[test]
fn autostart_dirs_prefer_xdg_config_home() {
    let d = autostart_dirs(Some("/home/u/.cfg".to_string()), Some("/home/u".to_string()));
    assert_eq!(d, vec!["/etc/xdg/autostart".to_string(), "/home/u/.cfg/autostart".to_string()]);
}

#[test]
fn autostart_dirs_fall_back_to_home() {
    let d = autostart_dirs(None, Some("/home/u".to_string()));
    assert_eq!(d, vec!["/etc/xdg/autostart".to_string(), "/home/u/.config/autostart".to_string()]);
    let d = autostart_dirs(None, None);
    assert_eq!(d, vec!["/etc/xdg/autostart".to_string()]);
}

#[test]
fn config_entry_runs_the_program_with_its_arguments() {
    let e = config_autostart_entry("waybar".to_string(), &vec!["-c".to_string(), "x.json".to_string()]);
    assert_eq!(e.name, "waybar");
    assert_eq!(e.exec_cmd, "waybar -c x.json");
    assert!(e.try_exec.is_none());
    assert!(!e.hidden);
    assert!(matches!(e._source, AutostartSource::Config));
}

fn config(mode: &str, dir: Option<&str>) -> WallpaperConfig {
    WallpaperConfig {
        mode: mode.to_string(),
        color: "#000000".to_string(),
        path: None,
        fit: "fill".to_string(),
        dir: dir.map(|d| d.to_string()),
        interval: Some(30),
    }
}

#[test]
fn slideshow_dir_only_in_slideshow_mode() {
    let s = WallpaperState::new(&config("slideshow", Some("/pics")), 0);
    assert_eq!(s.slideshow_dir().map(|d| d.as_str()), Some("/pics"));
    assert_eq!(s.current_fit_mode(), Some(FitMode::Fill));
    let s = WallpaperState::new(&config("solid", Some("/pics")), 0);
    assert_eq!(s.slideshow_dir(), None);
    assert!(s.is_solid());
}
