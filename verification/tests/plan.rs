use appsscope::plan::{friendly_name, order_plan_items, plan_item_from_ref, InstallPlan, PlanItem};
use appsscope::types::{AppRef, BackendId, Phase};

fn item(id: &str, runtime: bool, download: u64, installed: u64) -> PlanItem {
    PlanItem { id: id.to_string(), name: id.to_string(), is_runtime: runtime, download_size: download, installed_size: installed }
}

#[test]
fn plan_totals_and_dependencies() {
    let plan = InstallPlan {
        format: "Flatpak",
        source: Some("flathub".to_string()),
        items: vec![item("app", false, 12, 30), item("rt", true, 340, 900)],
    };
    assert!(plan.sizes_fit());
    assert_eq!(plan.download_size(), 352);
    assert_eq!(plan.installed_size(), 930);
    assert!(plan.has_dependencies());
    assert_eq!(plan.dependencies().len(), 1);
    assert_eq!(plan.dependencies()[0].id, "rt");
    assert_eq!(plan.provenance(), "Flatpak from flathub");
    let bare = InstallPlan { format: "System package", source: None, items: vec![item("a", false, 0, 0)] };
    assert_eq!(bare.provenance(), "System package");
    assert!(!bare.has_dependencies());
}

#[test]
fn oversized_totals_are_detected() {
    let plan = InstallPlan { format: "Flatpak", source: None, items: vec![item("a", false, u64::MAX, 0), item("b", true, 1, 0)] };
    assert!(!plan.sizes_fit());
    assert_eq!(plan.checked_sizes(), None);
    let disk_overflow = InstallPlan { format: "Flatpak", source: None, items: vec![item("a", false, 1, u64::MAX), item("b", true, 1, 1)] };
    assert_eq!(disk_overflow.checked_sizes(), None);
}

#[test]
fn checked_totals_sum_every_item() {
    let plan = InstallPlan { format: "Flatpak", source: None, items: vec![item("a", false, 5, 7), item("b", true, 11, 13)] };
    assert_eq!(plan.checked_sizes(), Some((16, 20)));
    let reordered = InstallPlan { format: "Flatpak", source: None, items: vec![item("b", true, 11, 13), item("a", false, 5, 7)] };
    assert_eq!(reordered.checked_sizes(), Some((16, 20)));
    let empty = InstallPlan { format: "Flatpak", source: None, items: Vec::new() };
    assert_eq!(empty.checked_sizes(), Some((0, 0)));
}

#[test]
fn runtime_names_read_naturally() {
    assert_eq!(friendly_name("org.gnome.Platform", "48"), "GNOME Platform 48");
    assert_eq!(friendly_name("org.kde.Platform", "6.7"), "KDE Platform 6.7");
    assert_eq!(friendly_name("org.freedesktop.Platform.GL.default", "24.08"), "Freedesktop default 24.08");
    assert_eq!(friendly_name("com.example.Tool", ""), "Tool");
    assert_eq!(friendly_name("single", ""), "single");
}

#[test]
fn refs_become_plan_items() {
    let a = plan_item_from_ref("app/org.gnome.Calculator/x86_64/stable", 10, 20);
    assert_eq!(a.id, "org.gnome.Calculator");
    assert!(!a.is_runtime);
    let r = plan_item_from_ref("runtime/org.gnome.Platform/x86_64/48", 5, 6);
    assert!(r.is_runtime);
    assert_eq!(r.name, "GNOME Platform 48");
    let odd = plan_item_from_ref("weird", 0, 0);
    assert_eq!(odd.id, "");
    assert!(odd.is_runtime);
}

#[test]
fn app_first_then_largest_download() {
    let items = vec![
        item("rt-small", true, 10, 0),
        item("app", false, 5, 0),
        item("rt-big", true, 500, 0),
        item("rt-tie", true, 10, 0),
    ];
    let ordered: Vec<String> = order_plan_items(items).into_iter().map(|i| i.id).collect();
    assert_eq!(ordered, vec!["app", "rt-big", "rt-small", "rt-tie"]);
}

#[test]
fn references_and_phases_have_text() {
    let r = AppRef::new(BackendId::Flatpak, "org.gnome.Calculator".to_string());
    assert_eq!(r.text(), "flatpak:org.gnome.Calculator");
    assert!(r.origin.is_none());
    assert_eq!(r.with_origin("flathub".to_string()).origin.as_deref(), Some("flathub"));
    assert_eq!(BackendId::PackageKit.as_str(), "packagekit");
    assert_eq!(BackendId::PackageKit.display_name(), "System");
    assert_eq!(BackendId::AppImage.badge_label(), "AppImage");
    assert_eq!(BackendId::Flatpak.css_class(), "format-flatpak");
    assert_eq!(Phase::Finalizing.label(), "Finishing up");
    assert_eq!(Phase::Resolving.label(), "Preparing");
}
