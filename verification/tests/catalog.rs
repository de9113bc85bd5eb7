use appsscope::catalog::{
    backend_from_name, category_list, component_record, fts_query, is_current, row_to_app,
    source_key, CatalogRow, ComponentInfo, Filter, ImageInfo, ReleaseInfo, ScreenshotInfo,
};
use appsscope::types::{BackendId, IconSource};

#[test]
fn search_terms_become_prefix_matches() {
    assert_eq!(fts_query("gimp").as_deref(), Some("\"gimp\"*"));
    assert_eq!(fts_query("  photo   editor ").as_deref(), Some("\"photo\"* AND \"editor\"*"));
    assert_eq!(fts_query("say \"hi\"").as_deref(), Some("\"say\"* AND \"hi\"*"));
}

#[test]
fn empty_searches_match_nothing() {
    assert!(fts_query("").is_none());
    assert!(fts_query("   ").is_none());
    assert!(fts_query("\" \"\"").is_none());
}

#[test]
fn filter_value_is_empty_without_a_backend() {
    assert_eq!(Filter::default().value(), "");
    assert_eq!(Filter { backend: Some("flatpak".to_string()) }.value(), "flatpak");
}

#[test]
fn sources_are_keyed_by_remote_and_arch() {
    assert_eq!(source_key("flathub", "x86_64"), "flatpak:flathub:x86_64");
}

#[test]
fn unchanged_fingerprints_skip_ingest() {
    assert!(is_current(Some("abc".to_string()), "abc"));
    assert!(!is_current(Some("abc".to_string()), "abd"));
    assert!(!is_current(None, "abc"));
    assert!(!is_current(Some(String::new()), ""));
}

#[test]
fn stored_backends_are_read_back() {
    assert_eq!(backend_from_name("packagekit"), BackendId::PackageKit);
    assert_eq!(backend_from_name("appimage"), BackendId::AppImage);
    assert_eq!(backend_from_name("flatpak"), BackendId::Flatpak);
    assert_eq!(backend_from_name("snap"), BackendId::Flatpak);
}

#[test]
fn stored_categories_drop_empty_pieces() {
    assert_eq!(category_list("Graphics;;2DGraphics;"), vec!["Graphics", "2DGraphics"]);
    assert!(category_list("").is_empty());
}

#[test]
fn rows_become_apps() {
    let row = CatalogRow {
        backend: "flatpak".to_string(),
        app_id: "org.gimp.GIMP".to_string(),
        origin: Some("flathub".to_string()),
        name: "GIMP".to_string(),
        summary: Some("Create images".to_string()),
        description: None,
        developer: Some("The GIMP team".to_string()),
        license: Some("GPL-3.0-or-later".to_string()),
        version: Some("2.10.38".to_string()),
        icon_path: Some("/icons/128x128/org.gimp.GIMP.png".to_string()),
        categories: "Graphics;2DGraphics;".to_string(),
    };
    let app = row_to_app(&row);
    assert_eq!(app.app_ref.backend, BackendId::Flatpak);
    assert_eq!(app.app_ref.origin.as_deref(), Some("flathub"));
    assert_eq!(app.name, "GIMP");
    assert_eq!(app.categories, vec!["Graphics", "2DGraphics"]);
    assert!(matches!(&app.icon, Some(IconSource::Cached(p)) if p == "/icons/128x128/org.gimp.GIMP.png"));
    assert!(app.screenshots.is_empty());
    assert!(app.sandbox.is_none());
}

fn component() -> ComponentInfo {
    ComponentInfo {
        is_desktop_app: true,
        id: "org.gnome.Calculator".to_string(),
        name: Some("Calculator".to_string()),
        summary: Some(String::new()),
        description: Some("<p>Solve</p>".to_string()),
        developer: None,
        license: Some("GPL-3.0-or-later".to_string()),
        categories: vec!["Utility".to_string(), "Calculator".to_string()],
        keywords: vec!["math".to_string(), "sum".to_string()],
        screenshots: vec![
            ScreenshotInfo { caption: None, is_default: true, images: Vec::new() },
            ScreenshotInfo {
                caption: Some("Main window".to_string()),
                is_default: false,
                images: vec![
                    ImageInfo { is_source: false, url: "thumb.png".to_string() },
                    ImageInfo { is_source: true, url: "full.png".to_string() },
                ],
            },
            ScreenshotInfo {
                caption: Some(String::new()),
                is_default: false,
                images: vec![ImageInfo { is_source: false, url: "only.png".to_string() }],
            },
        ],
        releases: (0..25)
            .map(|i| ReleaseInfo {
                version: format!("48.{}", 25 - i),
                timestamp: Some(1_700_000_000 - i),
                description: None,
            })
            .collect(),
    }
}

#[test]
fn components_become_records() {
    let record = component_record(&component()).unwrap();
    assert_eq!(record.name, "Calculator");
    assert!(record.summary.is_none());
    assert_eq!(record.description.as_deref(), Some("<p>Solve</p>"));
    assert_eq!(record.version.as_deref(), Some("48.25"));
    assert_eq!(record.categories, "Utility;Calculator");
    assert_eq!(record.keywords, "math sum");
    assert_eq!(record.screenshots.len(), 2);
    assert_eq!(record.screenshots[0].url, "full.png");
    assert_eq!(record.screenshots[0].position, 1);
    assert_eq!(record.screenshots[0].caption.as_deref(), Some("Main window"));
    assert_eq!(record.screenshots[1].url, "only.png");
    assert_eq!(record.screenshots[1].position, 2);
    assert!(record.screenshots[1].caption.is_none());
    assert_eq!(record.releases.len(), 20);
    assert_eq!(record.releases[19].version, "48.6");
    assert_eq!(record.releases[19].position, 19);
}

#[test]
fn only_named_desktop_apps_are_indexed() {
    let mut runtime = component();
    runtime.is_desktop_app = false;
    assert!(component_record(&runtime).is_none());
    let mut nameless = component();
    nameless.name = Some(String::new());
    assert!(component_record(&nameless).is_none());
    nameless.name = None;
    assert!(component_record(&nameless).is_none());
}

#[test]
fn a_stored_app_reads_back_as_its_component() {
    let c = component();
    let record = component_record(&c).unwrap();
    for backend in [BackendId::Flatpak, BackendId::PackageKit, BackendId::AppImage] {
        let row = CatalogRow {
            backend: backend.as_str().to_string(),
            app_id: record.app_id.clone(),
            origin: None,
            name: record.name.clone(),
            summary: record.summary.clone(),
            description: record.description.clone(),
            developer: record.developer.clone(),
            license: record.license.clone(),
            version: record.version.clone(),
            icon_path: None,
            categories: record.categories.clone(),
        };
        let app = row_to_app(&row);
        assert_eq!(app.app_ref.backend, backend);
        assert_eq!(app.app_ref.id, "org.gnome.Calculator");
        assert!(app.app_ref.origin.is_none());
        assert_eq!(app.name, "Calculator");
        assert!(app.summary.is_none());
        assert_eq!(app.license.as_deref(), Some("GPL-3.0-or-later"));
        assert_eq!(app.version.as_deref(), Some("48.25"));
        assert_eq!(app.categories, vec!["Utility".to_string(), "Calculator".to_string()]);
        assert!(app.screenshots.is_empty() && app.releases.is_empty() && app.sandbox.is_none());
    }
}
