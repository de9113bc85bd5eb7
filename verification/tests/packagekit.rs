use appsscope::desktop::Entry;
use appsscope::error::Error;
use appsscope::packagekit::{
    details_from_rows, installed_from_rows, map_error, no_such_package, on_transaction_event,
    phase_for_status, plan_from_rows, resolved_id, split_package_id, to_installed, PackageKitBackend,
    PackageRow, TransactionEvent, TransactionStep,
};
use appsscope::types::{AppRef, BackendId, IconSource, Phase};

fn row(id: &str, summary: &str) -> PackageRow {
    PackageRow { info: 1, package_id: id.to_string(), summary: summary.to_string() }
}

fn apps() -> Vec<(String, Entry)> {
    vec![(
        "code".to_string(),
        Entry { name: "Visual Studio Code".to_string(), icon: Some("vscode".to_string()) },
    )]
}

#[test]
fn package_ids_split_into_four_fields() {
    let (name, version, arch, data) = split_package_id("code;1.90.0;amd64;installed:vscode");
    assert_eq!((name.as_str(), version.as_str(), arch.as_str(), data.as_str()),
        ("code", "1.90.0", "amd64", "installed:vscode"));
    let (name, version, arch, data) = split_package_id("bare");
    assert_eq!((name.as_str(), version.as_str(), arch.as_str(), data.as_str()), ("bare", "", "", ""));
}

#[test]
fn desktop_entries_name_the_app() {
    let r = row("code;1.90.0;amd64;installed:vscode", "Code editing. Redefined.");
    let installed = to_installed(&r, false, &apps()).unwrap();
    assert_eq!(installed.app.name, "Visual Studio Code");
    assert_eq!(installed.app.app_ref.id, "code");
    assert_eq!(installed.app.app_ref.backend, BackendId::PackageKit);
    assert_eq!(installed.app.app_ref.origin.as_deref(), Some("vscode"));
    assert!(matches!(&installed.app.icon, Some(IconSource::Themed(i)) if i == "vscode"));
    assert_eq!(installed.app.summary.as_deref(), Some("Code editing. Redefined."));
    assert_eq!(installed.installed_version.as_deref(), Some("1.90.0"));
    assert!(installed.update.is_none());
    assert!(installed.app.sandbox.is_none());
}

#[test]
fn packages_without_an_entry_are_dropped() {
    let r = row("gdm3;46.0;amd64;installed:ubuntu-main", "display manager");
    assert!(to_installed(&r, false, &apps()).is_none());
}

#[test]
fn nothing_is_filtered_without_entries() {
    let r = row("gdm3;;amd64;installed:", "");
    let installed = to_installed(&r, true, &Vec::new()).unwrap();
    assert_eq!(installed.app.name, "gdm3");
    assert!(installed.app.summary.is_none());
    assert!(installed.app.version.is_none());
    assert!(installed.app.app_ref.origin.is_none());
    assert_eq!(installed.update.as_ref().map(|u| u.version.as_str()), Some(""));
}

#[test]
fn rows_without_a_name_are_dropped() {
    assert!(to_installed(&row(";1.0;amd64;", ""), false, &Vec::new()).is_none());
}

#[test]
fn installed_rows_keep_their_order() {
    let rows = vec![
        row("code;1;amd64;installed:x", ""),
        row("gdm3;1;amd64;installed:x", ""),
        row("code;2;amd64;installed:y", ""),
    ];
    let installed = installed_from_rows(&rows, true, &apps());
    assert_eq!(installed.len(), 2);
    assert!(installed.iter().all(|i| i.update.is_some()));
    assert_eq!(installed[1].installed_version.as_deref(), Some("2"));
}

#[test]
fn installed_apps_carry_their_desktop_entry() {
    let rows = vec![
        row("gdm3;1;amd64;installed:x", "Display manager"),
        row("code;1.90.0;amd64;installed:vscode", "Code editing. Redefined."),
    ];
    let installed = installed_from_rows(&rows, false, &apps());
    assert_eq!(installed.len(), 1);
    let app = &installed[0].app;
    assert_eq!(app.name, "Visual Studio Code");
    assert_eq!(app.summary.as_deref(), Some("Code editing. Redefined."));
    assert_eq!(app.app_ref.id, "code");
    assert_eq!(app.app_ref.origin.as_deref(), Some("vscode"));
    assert!(matches!(&app.icon, Some(IconSource::Themed(n)) if n == "vscode"));
    assert_eq!(installed[0].installed_version.as_deref(), Some("1.90.0"));
    assert!(installed[0].update.is_none());
}

#[test]
fn details_come_from_the_first_matching_row() {
    let rows = vec![row("gimp;2.10;amd64;installed:main", "Image editor")];
    let wanted = AppRef::new(BackendId::PackageKit, "gimp".to_string());
    let app = details_from_rows(&rows, &wanted, &Vec::new()).unwrap();
    assert_eq!(app.summary.as_deref(), Some("Image editor"));
    let missing = AppRef::new(BackendId::PackageKit, "inkscape".to_string());
    match details_from_rows(&rows, &missing, &Vec::new()) {
        Err(Error::NotFound(r)) => assert_eq!(r.id, "inkscape"),
        other => panic!("expected not found, got {other:?}"),
    }
}

#[test]
fn simulated_install_becomes_a_plan() {
    let rows = vec![
        row("gimp;2.10.38;amd64;main", ""),
        row("libgimp2.0;;amd64;main", ""),
    ];
    let plan = plan_from_rows(&rows, "gimp", Some("main".to_string())).unwrap();
    assert_eq!(plan.format, "System package");
    assert_eq!(plan.source.as_deref(), Some("main"));
    assert_eq!(plan.items.len(), 2);
    assert_eq!(plan.items[0].name, "gimp 2.10.38");
    assert!(!plan.items[0].is_runtime);
    assert_eq!(plan.items[1].name, "libgimp2.0");
    assert!(plan.items[1].is_runtime);
    assert_eq!(plan.items[1].download_size, 0);
    assert!(plan_from_rows(&Vec::new(), "gimp", None).is_none());
}

#[test]
fn the_requested_package_comes_first() {
    let rows = vec![
        row("libgimp2.0;;amd64;main", ""),
        row("babl;0.1;amd64;main", ""),
        row("gimp;2.10.38;amd64;main", ""),
        row("gegl;0.4;amd64;main", ""),
    ];
    let plan = plan_from_rows(&rows, "gimp", None).unwrap();
    let ids: Vec<&str> = plan.items.iter().map(|i| i.id.as_str()).collect();
    assert_eq!(ids, vec!["gimp", "libgimp2.0", "babl", "gegl"]);
    assert!(!plan.items[0].is_runtime);
    assert!(plan.items[1..].iter().all(|i| i.is_runtime));
}

#[test]
fn statuses_map_to_phases() {
    assert_eq!(phase_for_status(10), Phase::Downloading);
    assert_eq!(phase_for_status(7), Phase::Removing);
    assert_eq!(phase_for_status(8), Phase::Installing);
    assert_eq!(phase_for_status(9), Phase::Installing);
    assert_eq!(phase_for_status(2), Phase::Resolving);
}

#[test]
fn error_codes_map_onto_what_the_user_can_do() {
    assert!(matches!(map_error(34, "x".to_string()), Error::NotAuthorized));
    assert!(matches!(map_error(10, "offline".to_string()), Error::Network(d) if d == "offline"));
    assert!(matches!(map_error(3, "locked".to_string()), Error::Backend(d) if d == "locked"));
    assert!(map_error(10, String::new()).is_retryable());
    assert!(!map_error(34, String::new()).is_retryable());
}

#[test]
fn transaction_signals_decide_the_next_step() {
    match on_transaction_event(TransactionEvent::Finished { exit: 2 }, true) {
        TransactionStep::Fail(Error::Backend(m)) => {
            assert_eq!(m, "the package manager exited with status 2")
        }
        _ => panic!("expected a failure"),
    }
    match on_transaction_event(TransactionEvent::Finished { exit: 3 }, false) {
        TransactionStep::Fail(Error::Backend(m)) => {
            assert_eq!(m, "the operation ended with status 3")
        }
        _ => panic!("expected a failure"),
    }
    assert!(matches!(
        on_transaction_event(TransactionEvent::Finished { exit: 1 }, false),
        TransactionStep::Done
    ));
    assert!(matches!(
        on_transaction_event(
            TransactionEvent::ItemProgress { status: 10, percentage: 40 },
            false
        ),
        TransactionStep::Report { phase: Phase::Downloading, percent: Some(40) }
    ));
    assert!(matches!(
        on_transaction_event(
            TransactionEvent::ItemProgress { status: 8, percentage: 101 },
            false
        ),
        TransactionStep::Report { phase: Phase::Installing, percent: None }
    ));
    match on_transaction_event(TransactionEvent::Package(row("a;1;x;y", "s")), true) {
        TransactionStep::Keep(r) => assert_eq!(r.package_id, "a;1;x;y"),
        _ => panic!("expected the row to be kept"),
    }
    assert!(matches!(
        on_transaction_event(TransactionEvent::ErrorCode { code: 34, details: String::new() }, true),
        TransactionStep::Fail(Error::NotAuthorized)
    ));
}

#[test]
fn resolving_takes_the_first_row() {
    let rows = vec![row("a;1;x;y", ""), row("b;1;x;y", "")];
    assert_eq!(resolved_id(&rows).as_deref(), Some("a;1;x;y"));
    assert!(resolved_id(&Vec::new()).is_none());
    assert!(matches!(no_such_package("zz"), Error::Backend(m) if m == "no package named zz"));
}

#[test]
fn the_backend_is_packagekit() {
    assert_eq!(PackageKitBackend::new().id(), BackendId::PackageKit);
    assert_eq!(PackageKitBackend::default().id(), BackendId::PackageKit);
}
