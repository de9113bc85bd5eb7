use appsscope::desktop::{applications, desktop_entries, is_desktop_file, parse, Entry};

#[test]
fn skips_entries_a_menu_would_hide() {
    assert!(parse("[Desktop Entry]\nType=Application\nName=X\nNoDisplay=true\n").is_none());
    assert!(parse("[Desktop Entry]\nType=Application\nName=X\nHidden=true\n").is_none());
    assert!(parse("[Desktop Entry]\nType=Link\nName=X\n").is_none());
    assert!(parse("[Desktop Entry]\nType=Application\n").is_none());
}

#[test]
fn reads_name_and_icon() {
    let entry = parse("[Desktop Entry]\nType=Application\nName=Code\nIcon=vscode\n").unwrap();
    assert_eq!(entry.name, "Code");
    assert_eq!(entry.icon.as_deref(), Some("vscode"));
}

#[test]
fn ignores_action_groups() {
    let entry = parse(
        "[Desktop Entry]\nType=Application\nName=Firefox\n\
         [Desktop Action new-window]\nName=New Window\n",
    )
    .unwrap();
    assert_eq!(entry.name, "Firefox");
}

#[test]
fn keys_and_values_are_trimmed() {
    let entry = parse("  [Desktop Entry]  \r\n Type = Application \r\n Name = Text Editor \r\n").unwrap();
    assert_eq!(entry.name, "Text Editor");
    assert!(entry.icon.is_none());
}

#[test]
fn no_display_false_still_shows() {
    let entry = parse("[Desktop Entry]\nType=Application\nName=X\nNoDisplay=false\n").unwrap();
    assert_eq!(entry.name, "X");
}

#[test]
fn lines_before_the_group_are_ignored() {
    assert!(parse("Type=Application\nName=X\n").is_none());
    assert!(parse("").is_none());
}

#[test]
fn desktop_files_by_extension() {
    assert!(is_desktop_file("code.desktop"));
    assert!(!is_desktop_file(".desktop"));
    assert!(!is_desktop_file("code.desktop.bak"));
    assert!(!is_desktop_file("mimeinfo.cache"));
}

#[test]
fn entries_keep_only_what_a_menu_shows() {
    let files = vec![
        (
            "/usr/share/applications/a.desktop".to_string(),
            "[Desktop Entry]\nType=Application\nName=A\n".to_string(),
        ),
        (
            "/usr/share/applications/b.desktop".to_string(),
            "[Desktop Entry]\nType=Application\nName=B\nHidden=true\n".to_string(),
        ),
    ];
    let entries = desktop_entries(&files);
    assert_eq!(entries.len(), 1);
    assert_eq!(entries[0].0, "/usr/share/applications/a.desktop");
    assert_eq!(entries[0].1.name, "A");
}

fn entry(name: &str) -> Entry {
    Entry { name: name.to_string(), icon: None }
}

#[test]
fn owners_come_from_dpkg_output() {
    let entries = vec![
        ("/usr/share/applications/code.desktop".to_string(), entry("Visual Studio Code")),
        ("/usr/share/applications/code-url.desktop".to_string(), entry("Code URL Handler")),
        ("/usr/share/applications/orphan.desktop".to_string(), entry("Orphan")),
        ("/usr/share/applications/gimp.desktop".to_string(), entry("GIMP")),
    ];
    let output = "code: /usr/share/applications/code.desktop\n\
                  code: /usr/share/applications/code-url.desktop\n\
                  gimp, gimp-data: /usr/share/applications/gimp.desktop\n\
                  dpkg-query: no path found matching pattern /usr/share/applications/orphan.desktop\n";
    let map = applications(&entries, output);
    assert_eq!(map.len(), 2);
    assert_eq!(map[0].0, "code");
    assert_eq!(map[0].1.name, "Visual Studio Code");
    assert_eq!(map[1].0, "gimp");
    assert_eq!(map[1].1.name, "GIMP");
}

#[test]
fn a_later_line_overrides_an_earlier_owner() {
    let entries = vec![("/p/x.desktop".to_string(), entry("X"))];
    let output = "first: /p/x.desktop\nsecond: /p/x.desktop\n";
    let map = applications(&entries, output);
    assert_eq!(map.len(), 1);
    assert_eq!(map[0].0, "second");
}
