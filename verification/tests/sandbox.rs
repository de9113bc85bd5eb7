use appsscope::permissions::{
    classify, classify_bus, describe_path, override_edit, parse, revise_list, revoked_keys, BusPeer,
    OverrideEdit, SandboxFile,
};
use appsscope::sandbox::{PermissionKind, Risk, Sandbox};

fn strings(items: &[&str]) -> Vec<String> {
    items.iter().map(|s| s.to_string()).collect()
}

fn file(filesystems: &[&str], shared: &[&str], sockets: &[&str], devices: &[&str]) -> SandboxFile {
    SandboxFile {
        filesystems: strings(filesystems),
        shared: strings(shared),
        sockets: strings(sockets),
        devices: strings(devices),
        session_bus: Vec::new(),
        system_bus: Vec::new(),
    }
}

/// Transmission's metadata, as the key file reader returns its lists.
fn transmission() -> SandboxFile {
    file(
        &["xdg-run/gvfsd", "host"],
        &["ipc", "network"],
        &["fallback-x11", "pulseaudio", "wayland"],
        &["dri"],
    )
}

fn find<'a>(sandbox: &'a Sandbox, wanted: fn(&PermissionKind) -> bool) -> Option<&'a appsscope::sandbox::Permission> {
    sandbox.permissions.iter().find(|p| wanted(&p.kind))
}

#[test]
fn host_filesystem_is_critical() {
    let meta = transmission();
    let sandbox = parse(Some(&meta), None);
    assert_eq!(sandbox.risk(), Risk::Critical);
    assert!(sandbox
        .permissions
        .iter()
        .any(|p| matches!(p.kind, PermissionKind::HostFilesystem)));
}

#[test]
fn wayland_and_gpu_are_not_revocable() {
    let meta = transmission();
    let sandbox = parse(Some(&meta), None);
    for permission in &sandbox.permissions {
        if matches!(permission.kind, PermissionKind::Wayland | PermissionKind::Gpu) {
            assert!(permission.override_key.is_none());
        }
    }
}

#[test]
fn revoking_host_access_lowers_the_grade() {
    let meta = transmission();
    let overrides = file(&["!host"], &[], &[], &[]);
    let sandbox = parse(Some(&meta), Some(&overrides));

    let host = find(&sandbox, |k| matches!(k, PermissionKind::HostFilesystem))
        .expect("host permission should still be listed");

    assert!(host.revoked, "should be marked revoked");
    assert_eq!(sandbox.risk(), Risk::Caution);
}

#[test]
fn flatpak_bus_access_is_an_escape() {
    let mut meta = file(&[], &[], &[], &[]);
    meta.session_bus.push(BusPeer {
        name: "org.freedesktop.Flatpak".to_string(),
        policy: "talk".to_string(),
    });
    let sandbox = parse(Some(&meta), None);
    assert_eq!(sandbox.risk(), Risk::Critical);
    assert!(sandbox
        .permissions
        .iter()
        .any(|p| matches!(p.kind, PermissionKind::FlatpakEscape)));
}

#[test]
fn bus_peer_set_to_none_is_revoked() {
    let mut meta = file(&[], &[], &[], &[]);
    meta.session_bus.push(BusPeer {
        name: "org.freedesktop.secrets".to_string(),
        policy: "talk".to_string(),
    });
    let mut overrides = file(&[], &[], &[], &[]);
    overrides.session_bus.push(BusPeer {
        name: "org.freedesktop.secrets".to_string(),
        policy: "none".to_string(),
    });
    let sandbox = parse(Some(&meta), Some(&overrides));
    assert_eq!(sandbox.permissions.len(), 1);
    assert!(matches!(sandbox.permissions[0].kind, PermissionKind::Secrets));
    assert!(sandbox.permissions[0].revoked);
    assert_eq!(sandbox.risk(), Risk::Safe);

    let granted_again = parse(Some(&meta), Some(&file(&[], &[], &[], &[])));
    assert!(!granted_again.permissions[0].revoked);
    assert_eq!(granted_again.risk(), Risk::Critical);
}

#[test]
fn bus_policy_none_is_a_revoked_key() {
    let mut overrides = file(&["!home"], &[], &[], &[]);
    overrides.session_bus.push(BusPeer {
        name: "org.freedesktop.secrets".to_string(),
        policy: "none".to_string(),
    });
    overrides.session_bus.push(BusPeer {
        name: "org.example.Talk".to_string(),
        policy: "talk".to_string(),
    });
    let keys = revoked_keys(&overrides);
    assert!(keys.iter().any(|k| k == "bus:org.freedesktop.secrets"));
    assert!(keys.iter().any(|k| k == "filesystems:home"));
    assert!(!keys.iter().any(|k| k == "bus:org.example.Talk"));
    assert_eq!(keys.len(), 2);
}

#[test]
fn unknown_permissions_are_shown_not_hidden() {
    let meta = file(&[], &[], &["some-future-socket"], &[]);
    let sandbox = parse(Some(&meta), None);
    assert_eq!(sandbox.permissions.len(), 1);
}

#[test]
fn unreadable_metadata_is_an_empty_profile() {
    let sandbox = parse(None, None);
    assert!(sandbox.is_empty());
    assert_eq!(sandbox.risk(), Risk::Safe);
    assert_eq!(sandbox.headline(), "Fully sandboxed");
}

#[test]
fn transmission_profile_in_order() {
    let meta = transmission();
    let sandbox = parse(Some(&meta), None);
    let summaries: Vec<&str> = sandbox.permissions.iter().map(|p| p.summary.as_str()).collect();
    assert_eq!(
        summaries,
        vec![
            "Read and change the gvfsd runtime directory",
            "Read and change every file on this computer",
            "Communicate with the desktop",
            "Access the internet",
            "Use the older X11 display system",
            "Play and record audio",
            "Draw its window",
            "Use the graphics card",
        ]
    );
    assert_eq!(sandbox.critical_count(), 1);
    assert_eq!(sandbox.headline(), "1 permission defeats the sandbox");
}

#[test]
fn sorted_puts_the_worst_first_and_keeps_order() {
    let meta = transmission();
    let sandbox = parse(Some(&meta), None);
    let sorted: Vec<Risk> = sandbox.sorted().iter().map(|p| p.risk).collect();
    assert_eq!(
        sorted,
        vec![
            Risk::Critical,
            Risk::Caution,
            Risk::Caution,
            Risk::Caution,
            Risk::Safe,
            Risk::Safe,
            Risk::Safe,
            Risk::Safe,
        ]
    );
    assert_eq!(sandbox.sorted()[1].summary, "Access the internet");
}

#[test]
fn two_critical_permissions_are_counted() {
    let meta = file(&["host", "home"], &[], &[], &[]);
    let sandbox = parse(Some(&meta), None);
    assert_eq!(sandbox.headline(), "2 permissions defeat the sandbox");
}

#[test]
fn caution_headline() {
    let meta = file(&[], &["network"], &[], &[]);
    let sandbox = parse(Some(&meta), None);
    assert_eq!(sandbox.risk(), Risk::Caution);
    assert_eq!(sandbox.headline(), "Limited access outside its sandbox");
}

#[test]
fn removals_in_metadata_grant_nothing() {
    let meta = file(&["!host", ""], &[], &[], &[]);
    let sandbox = parse(Some(&meta), None);
    assert!(sandbox.is_empty());
}

#[test]
fn repeated_capabilities_are_listed_once() {
    let meta = file(&[], &[], &["x11", "fallback-x11"], &[]);
    let sandbox = parse(Some(&meta), None);
    assert_eq!(sandbox.permissions.len(), 1);
}

#[test]
fn see_policy_is_not_alarming() {
    let mut meta = file(&[], &[], &[], &[]);
    meta.session_bus.push(BusPeer {
        name: "org.freedesktop.Flatpak".to_string(),
        policy: "see".to_string(),
    });
    let sandbox = parse(Some(&meta), None);
    assert!(sandbox.is_empty());
}

#[test]
fn read_only_paths_are_read_only() {
    let revoked: Vec<String> = Vec::new();
    let p = classify("filesystems", "xdg-documents:ro", &revoked).unwrap();
    assert_eq!(p.summary, "Read your Documents folder");
    assert_eq!(p.risk, Risk::Caution);
    assert_eq!(p.override_key.as_deref(), Some("filesystems:xdg-documents:ro"));
    let d = classify("filesystems", "xdg-download", &revoked).unwrap();
    assert_eq!(d.risk, Risk::Safe);
    assert_eq!(d.summary, "Read and change your Downloads folder");
}

#[test]
fn unknown_device_and_key() {
    let revoked: Vec<String> = Vec::new();
    let d = classify("devices", "kvm", &revoked).unwrap();
    assert_eq!(d.summary, "Use kvm devices");
    assert_eq!(d.risk, Risk::Caution);
    let o = classify("features", "bluetooth", &revoked).unwrap();
    assert_eq!(o.summary, "features: bluetooth");
}

#[test]
fn bus_peers_are_graded() {
    let revoked = vec!["bus:org.freedesktop.secrets".to_string()];
    let secrets = classify_bus("org.freedesktop.secrets", &revoked).unwrap();
    assert!(matches!(secrets.kind, PermissionKind::Secrets));
    assert!(secrets.revoked);
    assert_eq!(secrets.override_key.as_deref(), Some("bus:org.freedesktop.secrets"));
    let portal = classify_bus("org.freedesktop.impl.portal.desktop.gnome", &revoked).unwrap();
    assert_eq!(portal.risk, Risk::Caution);
    assert!(classify_bus("org.freedesktop.Notifications", &revoked).is_none());
}

#[test]
fn paths_are_described_in_words() {
    assert_eq!(describe_path("xdg-music"), "your Music folder");
    assert_eq!(describe_path("xdg-run/pipewire-0"), "the pipewire-0 runtime directory");
    assert_eq!(describe_path("~/Games"), "~/Games");
}

/// Apply one edit to an override file held as plain lists.
fn apply(overrides: &mut SandboxFile, token: &str, granted: bool) {
    let (group, value) = token.split_once(':').unwrap();
    let current = match group {
        "filesystems" => overrides.filesystems.clone(),
        "shared" => overrides.shared.clone(),
        "sockets" => overrides.sockets.clone(),
        "devices" => overrides.devices.clone(),
        _ => Vec::new(),
    };
    let list = match group {
        "filesystems" => &mut overrides.filesystems,
        "shared" => &mut overrides.shared,
        "sockets" => &mut overrides.sockets,
        _ => &mut overrides.devices,
    };
    match override_edit(group, value, granted, &current) {
        OverrideEdit::SetContext { key, value } => {
            assert_eq!(key, group);
            *list = value.trim_end_matches(';').split(';').map(|s| s.to_string()).collect();
        }
        OverrideEdit::RemoveContext { key } => {
            assert_eq!(key, group);
            list.clear();
        }
        other => panic!("unexpected edit {other:?}"),
    }
}

#[test]
fn override_edits_round_trip() {
    let mut overrides = file(&[], &[], &[], &[]);
    apply(&mut overrides, "filesystems:host", false);
    apply(&mut overrides, "shared:network", false);
    apply(&mut overrides, "shared:network", true);
    assert_eq!(overrides.filesystems, vec!["!host".to_string()]);
    assert!(overrides.shared.is_empty());

    let meta = file(&["host"], &["network"], &[], &[]);
    let parsed = parse(Some(&meta), Some(&overrides));
    let host = find(&parsed, |k| matches!(k, PermissionKind::HostFilesystem)).unwrap();
    let net = find(&parsed, |k| matches!(k, PermissionKind::Network)).unwrap();
    assert!(host.revoked, "host should stay revoked");
    assert!(!net.revoked, "network should have been restored");
}

#[test]
fn bus_overrides_use_policy() {
    let current: Vec<String> = Vec::new();
    match override_edit("bus", "org.freedesktop.secrets", false, &current) {
        OverrideEdit::SetBusPolicyNone { name } => assert_eq!(name, "org.freedesktop.secrets"),
        other => panic!("unexpected edit {other:?}"),
    }
    match override_edit("bus", "org.freedesktop.secrets", true, &current) {
        OverrideEdit::RemoveBusPolicy { name } => assert_eq!(name, "org.freedesktop.secrets"),
        other => panic!("unexpected edit {other:?}"),
    }
}

#[test]
fn revoking_twice_is_revoking_once() {
    let current = strings(&["home"]);
    let once = revise_list(&current, "host", false);
    let twice = revise_list(&once, "host", false);
    assert_eq!(once, strings(&["home", "!host"]));
    assert_eq!(twice, once);
    let restored = revise_list(&twice, "host", true);
    assert_eq!(restored, strings(&["home"]));
}
