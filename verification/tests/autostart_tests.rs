use vitrum::autostart::{create_config_entry, AutostartEntry, AutostartManager, AutostartSource};

fn entry(name: &str, hidden: bool, only: &[&str], not: &[&str]) -> AutostartEntry {
    AutostartEntry {
        name: name.to_string(),
        exec_cmd: name.to_lowercase(),
        try_exec: None,
        _icon: None,
        _comment: None,
        path: None,
        _terminal: false,
        hidden,
        only_show_in: only.iter().map(|s| s.to_string()).collect(),
        not_show_in: not.iter().map(|s| s.to_string()).collect(),
        _source: AutostartSource::Config,
    }
}

#[test]
fn test_autostart_entry_should_show() {
    let entry1 = entry("Test", false, &["GNOME"], &[]);
    assert!(entry1.should_show("GNOME"));
    assert!(!entry1.should_show("KDE"));

    let entry2 = entry("Test2", false, &[], &["KDE"]);
    assert!(entry2.should_show("GNOME"));
    assert!(!entry2.should_show("KDE"));
}

#[test]
fn test_autostart_entry_hidden() {
    let hidden = entry("Hidden", true, &[], &[]);
    assert!(!hidden.should_show("GNOME"));
}

#[test]
fn test_parse_desktop_file_content() {
    let content = "[Desktop Entry]
Name=Test Application
Exec=/usr/bin/test-app
Type=Application
Icon=test-icon
Comment=This is a test application
";
    let entry = AutostartManager::parse_desktop_entry(content, "/tmp/test-autostart.desktop").unwrap();

    assert_eq!(entry.name, "Test Application");
    assert_eq!(entry.exec_cmd, "/usr/bin/test-app");
    assert_eq!(entry._icon, Some("test-icon".to_string()));
    assert_eq!(entry._comment, Some("This is a test application".to_string()));
}

#[test]
fn desktop_names_compare_ignoring_case() {
    let e = entry("X", false, &["gnome"], &[]);
    assert!(e.should_show("GNOME"));
}

#[test]
fn desktop_entry_without_exec_or_hidden_from_display() {
    assert!(AutostartManager::parse_desktop_entry("[Desktop Entry]\nName=A\nType=Application\n", "/a.desktop").is_none());
    assert!(AutostartManager::parse_desktop_entry(
        "[Desktop Entry]\nName=A\nType=Application\nExec=a\nNoDisplay=true\n",
        "/a.desktop"
    )
    .is_none());
    assert!(AutostartManager::parse_desktop_entry("[Desktop Entry]\nName=A\nType=Link\nExec=a\n", "/a.desktop").is_none());
}

#[test]
fn desktop_entry_lists_and_other_groups() {
    let content = "[Desktop Entry]\nType=Application\nExec=tool --flag\nHidden=true\nOnlyShowIn=GNOME;KDE;\n[Desktop Action new]\nExec=other\n";
    let e = AutostartManager::parse_desktop_entry(content, "/apps/tool.desktop").unwrap();
    assert_eq!(e.exec_cmd, "tool --flag");
    assert!(e.hidden);
    assert_eq!(e.only_show_in, vec!["GNOME".to_string(), "KDE".to_string(), String::new()]);
}

#[test]
fn config_entry_runs_its_command() {
    let e = create_config_entry("term".to_string(), "foot".to_string());
    assert_eq!(e.name, "term");
    assert_eq!(e.exec_cmd, "foot");
    assert!(e.should_show("anything"));
}

#[test]
fn disabled_manager_launches_nothing() {
    let mut m = AutostartManager::with_config_entries(
        vec![create_config_entry("a".to_string(), "a".to_string())],
        Some("GNOME".to_string()),
    );
    assert_eq!(m.select_launches(&[true]), vec![0]);
    m.set_disabled(true);
    assert!(m.select_launches(&[true]).is_empty());
}
