use appsscope::permissions::{parse, SandboxFile};
use appsscope::presentation::{
    action_verb, badge_classes, badge_icon, badge_label, button_classes, button_label, byline,
    consent_body, consent_heading, description_text, explanation, facts, has_rows,
    humanise_license, install_is_destructive, more_dependencies_line, more_permissions_line,
    notable_permissions, risk_chip_classes, risk_chip_icon, risk_chip_label, row_subtitle,
    shown_size, strip_markup, tile_subtitle, RowAction,
};
use appsscope::sandbox::{Risk, Sandbox};
use appsscope::types::{App, AppRef, BackendId};

fn app() -> App {
    App {
        app_ref: AppRef::new(BackendId::Flatpak, "org.gnome.Calculator".to_string())
            .with_origin("flathub".to_string()),
        name: "Calculator".to_string(),
        summary: Some("Perform arithmetic".to_string()),
        description: Some("<p>Solve <em>sums</em>.</p><ul><li>Fast</li><li>Exact</li></ul>".to_string()),
        developer: None,
        license: Some(" GPL-3.0-or-later ".to_string()),
        categories: Vec::new(),
        icon: None,
        screenshots: Vec::new(),
        releases: Vec::new(),
        version: Some("48.1".to_string()),
        download_size: Some(12),
        installed_size: None,
        sandbox: None,
    }
}

fn sandbox(filesystems: &[&str], shared: &[&str]) -> Sandbox {
    let f = SandboxFile {
        filesystems: filesystems.iter().map(|s| s.to_string()).collect(),
        shared: shared.iter().map(|s| s.to_string()).collect(),
        sockets: Vec::new(),
        devices: vec!["dri".to_string()],
        session_bus: Vec::new(),
        system_bus: Vec::new(),
    };
    parse(Some(&f), None)
}

#[test]
fn row_actions_have_labels_and_styles() {
    assert_eq!(RowAction::Install.label(), Some("Install"));
    assert_eq!(RowAction::NoAction.label(), None);
    assert_eq!(RowAction::Remove.css_class(), "destructive-action");
    assert_eq!(RowAction::Update.css_class(), "suggested-action");
    assert_eq!(action_verb(RowAction::Update), "Updating");
    assert_eq!(action_verb(RowAction::NoAction), "");
}

#[test]
fn list_rows_describe_the_app() {
    let mut a = app();
    assert_eq!(row_subtitle(&a), "Perform arithmetic\n48.1");
    a.summary = None;
    a.version = None;
    assert_eq!(row_subtitle(&a), "No description available");
    assert_eq!(risk_chip_label(&a), "");
    assert_eq!(risk_chip_icon(&a), None);
    assert_eq!(risk_chip_classes(&a), vec!["risk-chip"]);
    a.sandbox = Some(sandbox(&["home"], &[]));
    assert_eq!(risk_chip_label(&a), "Full access");
    assert_eq!(risk_chip_icon(&a), Some("security-low-symbolic"));
    assert_eq!(risk_chip_classes(&a), vec!["risk-chip", "risk-critical"]);
}

#[test]
fn tiles_prefer_installed_then_developer() {
    let mut a = app();
    assert_eq!(tile_subtitle(&a, true), "Installed");
    assert_eq!(tile_subtitle(&a, false), "Perform arithmetic");
    a.developer = Some("The GNOME Project".to_string());
    assert_eq!(tile_subtitle(&a, false), "The GNOME Project");
    assert_eq!(byline(&a), "The GNOME Project");
    a.developer = None;
    assert_eq!(byline(&a), "org.gnome.Calculator");
}

#[test]
fn licences_get_familiar_names() {
    assert_eq!(humanise_license("GPL-3.0-only"), "GPL 3");
    assert_eq!(humanise_license(" MIT "), "MIT");
    assert_eq!(humanise_license("LicenseRef-proprietary=https://example.com"), "Proprietary");
    assert_eq!(humanise_license("LicenseRef-proprietary"), "Proprietary");
    assert_eq!(humanise_license("GPL-2.0-or-later AND MIT"), "GPL-2.0-or-later AND MIT");
}

#[test]
fn facts_skip_what_is_unknown() {
    let a = app();
    let shown = facts(&a, Some("12 B".to_string()));
    let pairs: Vec<(&str, &str)> = shown.iter().map(|(c, v)| (c.as_str(), v.as_str())).collect();
    assert_eq!(
        pairs,
        vec![
            ("Version", "48.1"),
            ("Licence", "GPL 3"),
            ("Format", "Flatpak"),
            ("Source", "flathub"),
            ("Size", "12 B"),
        ]
    );
    assert_eq!(shown_size(&a), Some(12));
    let mut bare = app();
    bare.version = None;
    bare.license = None;
    bare.app_ref.origin = None;
    assert_eq!(facts(&bare, None).len(), 1);
}

#[test]
fn buttons_follow_state() {
    assert_eq!(button_label(true, true), "Working…");
    assert_eq!(button_label(false, true), "Remove");
    assert_eq!(button_label(false, false), "Install");
    assert_eq!(button_classes(true), vec!["pill", "destructive-action"]);
    assert_eq!(button_classes(false), vec!["pill", "suggested-action"]);
}

#[test]
fn markup_becomes_plain_text() {
    assert_eq!(
        strip_markup("<p>Solve <em>sums</em>.</p><ul><li>Fast<li>Exact</ul>"),
        "Solve sums.\n\n• Fast\n• Exact"
    );
    // A closing list item is read as a list item too.
    assert_eq!(strip_markup("<ul><li>Fast</li></ul>"), "• Fast\n•");
    assert_eq!(strip_markup("<P>One</P>\n\n\n\n<P>Two</P>"), "One\n\nTwo");
    assert_eq!(strip_markup("a > b"), "a > b");
    assert_eq!(strip_markup(""), "");
    assert_eq!(description_text(&app()), "Solve sums.\n\n• Fast\n•\n• Exact\n•");
}

#[test]
fn badge_says_how_confined_an_app_is() {
    let s = sandbox(&[], &["network"]);
    assert_eq!(badge_label(Some(&s), false), "Limited access");
    assert_eq!(badge_label(Some(&s), true), "Not sandboxed");
    assert_eq!(badge_label(None, false), "Unknown");
    assert_eq!(badge_icon(Some(&s), false), "security-medium-symbolic");
    assert_eq!(badge_icon(None, false), "dialog-question-symbolic");
    assert_eq!(badge_classes(Some(&s), true), vec!["risk-badge", "risk-unknown"]);
    assert_eq!(badge_classes(Some(&s), false), vec!["risk-badge", "risk-caution"]);
    assert_eq!(
        explanation(Some(&s), false),
        "This app can reach some things outside its sandbox. Limited access outside its sandbox"
    );
    assert!(explanation(None, true).starts_with("This package format provides no sandbox."));
    assert_eq!(explanation(None, false), "AppsScope could not read this app's permissions.");
    assert!(has_rows(Some(&s)));
    assert!(!has_rows(None));
}

#[test]
fn consent_states_the_risk_first() {
    assert_eq!(consent_heading(Some(Risk::Critical)), "This app is not sandboxed");
    assert_eq!(consent_heading(None), "Permissions unknown");
    assert_eq!(
        consent_body("org.example.App", Some(Risk::Caution)),
        "org.example.App will be able to do the following:"
    );
    assert_eq!(
        consent_body("org.example.App", None),
        "AppsScope could not read the permissions for org.example.App. It may be able to access files outside its sandbox."
    );
    assert!(install_is_destructive(None));
    assert!(install_is_destructive(Some(Risk::Critical)));
    assert!(!install_is_destructive(Some(Risk::Caution)));
}

#[test]
fn consent_lists_only_notable_permissions() {
    let s = sandbox(&["xdg-download", "home"], &["network", "ipc"]);
    let notable: Vec<&str> = notable_permissions(&s).iter().map(|p| p.summary.as_str()).collect();
    assert_eq!(
        notable,
        vec!["Read and change everything in your home folder", "Access the internet"]
    );
}

#[test]
fn overflow_lines_count_what_is_left_out() {
    assert_eq!(more_permissions_line(6), None);
    assert_eq!(
        more_permissions_line(9).as_deref(),
        Some("and 3 more — see the app page for the full list")
    );
    assert_eq!(more_dependencies_line(4), None);
    assert_eq!(more_dependencies_line(5).as_deref(), Some("and 1 more"));
}
