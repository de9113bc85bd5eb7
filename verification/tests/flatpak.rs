use appsscope::error::Error;
use appsscope::flatpak::{
    classify_message, find_app, find_installed_ref, installed_apps, no_installation,
    operation_phase, pick_remote_ref, plan_from_operations, remote_for, run_error, to_error,
    to_installed_app, InstalledRefInfo, InstalledRefName, OperationType, RemoteRefInfo,
};
use appsscope::permissions::SandboxFile;
use appsscope::sandbox::Risk;
use appsscope::types::{AppRef, BackendId, Phase};

fn info(name: Option<&str>, is_app: bool) -> InstalledRefInfo {
    InstalledRefInfo {
        is_app,
        name: name.map(|s| s.to_string()),
        full_ref: name.map(|n| format!("app/{n}/x86_64/stable")),
        origin: Some("flathub".to_string()),
        appdata_name: None,
        appdata_summary: Some("Does sums".to_string()),
        appdata_version: Some("48.1".to_string()),
        appdata_license: None,
        installed_size: 4_000_000,
        metadata_loaded: true,
        metadata: Some(SandboxFile {
            filesystems: vec!["home".to_string()],
            shared: Vec::new(),
            sockets: Vec::new(),
            devices: Vec::new(),
            session_bus: Vec::new(),
            system_bus: Vec::new(),
        }),
        overrides: None,
    }
}

#[test]
fn installed_refs_become_apps() {
    let installed = to_installed_app(&info(Some("org.gnome.Calculator"), true), true).unwrap();
    assert_eq!(installed.app.name, "org.gnome.Calculator");
    assert_eq!(installed.app.app_ref.backend, BackendId::Flatpak);
    assert_eq!(installed.app.app_ref.origin.as_deref(), Some("flathub"));
    assert_eq!(installed.app.installed_size, Some(4_000_000));
    assert_eq!(installed.app.sandbox.as_ref().map(|s| s.risk()), Some(Risk::Critical));
    assert_eq!(installed.update.as_ref().map(|u| u.version.as_str()), Some(""));
    assert_eq!(installed.installed_version.as_deref(), Some("48.1"));
}

#[test]
fn refs_without_an_id_are_skipped() {
    assert!(to_installed_app(&info(None, true), false).is_none());
}

#[test]
fn unreadable_metadata_leaves_the_sandbox_unknown() {
    let mut i = info(Some("a.b.C"), true);
    i.metadata_loaded = false;
    let installed = to_installed_app(&i, false).unwrap();
    assert!(installed.app.sandbox.is_none());
    let mut j = info(Some("a.b.C"), true);
    j.metadata = None;
    let installed = to_installed_app(&j, false).unwrap();
    assert!(installed.app.sandbox.as_ref().unwrap().is_empty());
}

#[test]
fn runtimes_are_not_listed() {
    let refs = vec![
        info(Some("org.gnome.Platform"), false),
        info(Some("org.gnome.Calculator"), true),
        info(None, true),
    ];
    let apps = installed_apps(&refs, false);
    assert_eq!(apps.len(), 1);
    assert_eq!(apps[0].app.app_ref.id, "org.gnome.Calculator");
}

#[test]
fn details_find_the_app_by_id() {
    let refs = vec![info(Some("a.b.C"), true), info(Some("d.e.F"), true)];
    assert_eq!(find_app(&refs, "d.e.F").unwrap().app_ref.id, "d.e.F");
    assert!(find_app(&refs, "x.y.Z").is_none());
}

fn remote(name: &str, branch: &str, full: Option<&str>) -> RemoteRefInfo {
    RemoteRefInfo {
        is_app: true,
        name: Some(name.to_string()),
        branch: Some(branch.to_string()),
        full_ref: full.map(|s| s.to_string()),
    }
}

#[test]
fn stable_branch_is_preferred() {
    let refs = vec![
        remote("org.gimp.GIMP", "beta", Some("app/org.gimp.GIMP/x86_64/beta")),
        remote("org.gimp.GIMP", "stable", Some("app/org.gimp.GIMP/x86_64/stable")),
    ];
    assert_eq!(pick_remote_ref(&refs, "org.gimp.GIMP").as_deref(), Some("app/org.gimp.GIMP/x86_64/stable"));
}

#[test]
fn first_match_is_the_fallback() {
    let refs = vec![
        remote("other", "stable", Some("app/other/x86_64/stable")),
        remote("org.gimp.GIMP", "beta", Some("app/org.gimp.GIMP/x86_64/beta")),
        remote("org.gimp.GIMP", "test", Some("app/org.gimp.GIMP/x86_64/test")),
    ];
    assert_eq!(pick_remote_ref(&refs, "org.gimp.GIMP").as_deref(), Some("app/org.gimp.GIMP/x86_64/beta"));
    assert!(pick_remote_ref(&refs, "missing").is_none());
}

#[test]
fn an_unformattable_match_ends_the_search() {
    let refs = vec![
        remote("org.gimp.GIMP", "beta", None),
        remote("org.gimp.GIMP", "stable", Some("app/org.gimp.GIMP/x86_64/stable")),
    ];
    assert!(pick_remote_ref(&refs, "org.gimp.GIMP").is_none());
}

#[test]
fn installed_refs_are_found_across_installations() {
    let name = |n: &str, full: Option<&str>| InstalledRefName {
        name: Some(n.to_string()),
        full_ref: full.map(|s| s.to_string()),
    };
    let lists = vec![
        vec![name("a", Some("app/a/x86_64/stable")), name("b", None)],
        vec![name("b", Some("app/b/x86_64/stable"))],
    ];
    assert_eq!(find_installed_ref(&lists, "b"), Some((1, "app/b/x86_64/stable".to_string())));
    assert_eq!(find_installed_ref(&lists, "a"), Some((0, "app/a/x86_64/stable".to_string())));
    assert_eq!(find_installed_ref(&lists, "c"), None);
}

#[test]
fn operations_become_an_ordered_plan() {
    let ops = vec![
        ("runtime/org.gnome.Platform/x86_64/48".to_string(), 340_000_000, 900_000_000),
        ("app/org.gnome.Calculator/x86_64/stable".to_string(), 12_000_000, 30_000_000),
        ("runtime/org.gnome.Platform.Locale/x86_64/48".to_string(), 500_000_000, 1_000),
    ];
    let plan = plan_from_operations(&ops, "flathub".to_string()).unwrap();
    assert_eq!(plan.format, "Flatpak");
    assert_eq!(plan.provenance(), "Flatpak from flathub");
    let names: Vec<&str> = plan.items.iter().map(|i| i.name.as_str()).collect();
    assert_eq!(names, vec!["GNOME Calculator stable", "GNOME Locale 48", "GNOME Platform 48"]);
    assert!(!plan.items[0].is_runtime);
    assert_eq!(plan.download_size(), 852_000_000);
    assert_eq!(plan.dependencies().len(), 2);
    assert!(plan_from_operations(&Vec::new(), "flathub".to_string()).is_none());
}

#[test]
fn remote_defaults_to_flathub() {
    let bare = AppRef::new(BackendId::Flatpak, "a.b.C".to_string());
    assert_eq!(remote_for(&bare), "flathub");
    assert_eq!(remote_for(&bare.with_origin("gnome-nightly".to_string())), "gnome-nightly");
}

#[test]
fn failure_messages_are_classified() {
    assert!(matches!(to_error("Flatpak system operation Deploy not allowed for user: Not Authorized".to_string()), Error::NotAuthorized));
    assert!(matches!(to_error("Permission denied".to_string()), Error::NotAuthorized));
    assert!(matches!(to_error("Not enough disk space: No space left".to_string()), Error::Backend(m) if m.starts_with("Not enough")));
    assert!(matches!(to_error("Could not resolve hostname".to_string()), Error::Network(m) if m == "Could not resolve hostname"));
    assert!(matches!(to_error("Operation was cancelled".to_string()), Error::Cancelled));
    assert!(matches!(to_error("Something else".to_string()), Error::Backend(m) if m == "Something else"));
    assert!(matches!(classify_message("X".to_string(), "timed out"), Error::Network(m) if m == "X"));
    assert!(matches!(run_error(true, "network".to_string()), Error::Cancelled));
    assert!(matches!(run_error(false, "NETWORK down".to_string()), Error::Network(_)));
}

#[test]
fn operation_kinds_set_the_phase() {
    assert_eq!(operation_phase(OperationType::Uninstall), Phase::Removing);
    assert_eq!(operation_phase(OperationType::Install), Phase::Downloading);
    assert_eq!(operation_phase(OperationType::Update), Phase::Downloading);
}

#[test]
fn no_installation_hides_the_backend() {
    match no_installation() {
        Error::BackendUnavailable { backend, reason } => {
            assert_eq!(backend, "flatpak");
            assert_eq!(reason, "no flatpak installation");
        }
        other => panic!("unexpected {other:?}"),
    }
}
