use appsscope::error::Error;
use appsscope::registry::{
    apply_format_filter, enrich, filter_for, format_option_label, format_options, gather,
    missing_backend, sort_by_name,
};
use appsscope::types::{App, AppRef, BackendId, IconSource, InstalledApp};

fn app(backend: BackendId, id: &str, name: &str) -> App {
    App {
        app_ref: AppRef::new(backend, id.to_string()),
        name: name.to_string(),
        summary: None,
        description: None,
        developer: None,
        license: None,
        categories: Vec::new(),
        icon: None,
        screenshots: Vec::new(),
        releases: Vec::new(),
        version: None,
        download_size: None,
        installed_size: None,
        sandbox: None,
    }
}

fn installed(a: App) -> InstalledApp {
    InstalledApp { app: a, installed_version: None, update: None }
}

fn names(apps: &[App]) -> Vec<&str> {
    apps.iter().map(|a| a.name.as_str()).collect()
}

#[test]
fn names_sort_case_insensitively_and_stably() {
    let apps = vec![
        app(BackendId::Flatpak, "1", "zed"),
        app(BackendId::Flatpak, "2", "Alpha"),
        app(BackendId::PackageKit, "3", "beta"),
        app(BackendId::PackageKit, "4", "ALPHA"),
        app(BackendId::Flatpak, "5", "Émile"),
    ];
    let sorted = sort_by_name(apps);
    assert_eq!(names(&sorted), vec!["Alpha", "ALPHA", "beta", "zed", "Émile"]);
}

#[test]
fn one_failing_backend_does_not_blank_the_list() {
    let results = vec![
        Ok(vec![installed(app(BackendId::Flatpak, "b", "b")), installed(app(BackendId::Flatpak, "a", "a"))]),
        Err("packagekit is down".to_string()),
    ];
    let apps = gather(results).unwrap();
    assert_eq!(names(&apps), vec!["a", "b"]);
}

#[test]
fn total_failure_reports_every_error() {
    let results = vec![Err("first".to_string()), Err("second".to_string())];
    assert_eq!(gather(results).unwrap_err(), "first\nsecond");
    assert!(gather(Vec::new()).unwrap().is_empty());
}

#[test]
fn an_empty_answer_is_not_a_total_failure() {
    let results = vec![Err("first".to_string()), Ok(Vec::new()), Err("second".to_string())];
    assert!(gather(results).unwrap().is_empty());
}

#[test]
fn format_filter_keeps_one_format() {
    let apps = vec![
        app(BackendId::Flatpak, "a", "a"),
        app(BackendId::PackageKit, "b", "b"),
        app(BackendId::Flatpak, "c", "c"),
    ];
    assert_eq!(names(&apply_format_filter(apps.clone(), None)), vec!["a", "b", "c"]);
    assert_eq!(names(&apply_format_filter(apps, Some(BackendId::Flatpak))), vec!["a", "c"]);
    assert_eq!(filter_for(Some(BackendId::PackageKit)).value(), "packagekit");
    assert!(filter_for(None).backend.is_none());
}

#[test]
fn format_choices_start_with_all() {
    let options = format_options(&vec![BackendId::Flatpak, BackendId::PackageKit]);
    assert_eq!(options, vec![None, Some(BackendId::Flatpak), Some(BackendId::PackageKit)]);
    assert_eq!(format_option_label(None), "All formats");
    assert_eq!(format_option_label(Some(BackendId::PackageKit)), "System");
}

#[test]
fn the_catalog_fills_gaps_only() {
    let mut backend = app(BackendId::Flatpak, "org.gnome.Calculator", "org.gnome.Calculator");
    backend.summary = Some("From the backend".to_string());
    let mut entry = app(BackendId::Flatpak, "org.gnome.Calculator", "Calculator");
    entry.summary = Some("From the catalog".to_string());
    entry.developer = Some("GNOME".to_string());
    entry.icon = Some(IconSource::Cached("/icons/calc.png".to_string()));
    let merged = enrich(backend, Some(entry));
    assert_eq!(merged.name, "Calculator");
    assert_eq!(merged.summary.as_deref(), Some("From the backend"));
    assert_eq!(merged.developer.as_deref(), Some("GNOME"));
    assert!(matches!(merged.icon, Some(IconSource::Cached(_))));

    let named = app(BackendId::Flatpak, "x", "Real Name");
    let kept = enrich(named, Some(app(BackendId::Flatpak, "x", "Other")));
    assert_eq!(kept.name, "Real Name");
    assert_eq!(enrich(app(BackendId::Flatpak, "y", "y"), None).name, "y");
}

#[test]
fn missing_backends_are_unavailable() {
    let r = AppRef::new(BackendId::AppImage, "a".to_string());
    match missing_backend(&r) {
        Error::BackendUnavailable { backend, reason } => {
            assert_eq!(backend, "appimage");
            assert_eq!(reason, "not available on this system");
        }
        other => panic!("unexpected {other:?}"),
    }
}
