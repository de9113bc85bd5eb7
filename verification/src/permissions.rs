//! Grading a Flatpak app's sandbox profile.
//!
//! Flatpak describes an app's sandbox in its `metadata` keyfile: `[Context]`
//! lists (`filesystems=host;`, `sockets=x11;`, …) and one key per D-Bus peer
//! in the bus policy groups. Users revoke individual grants in an override
//! keyfile where `!x` takes `x` away. This module turns both into graded,
//! plain-language [`Permission`]s.
//!
//! The grading is the opinionated part. It is written so the worst cases —
//! whole-filesystem access, direct bus access, Flatpak-controlling-Flatpak —
//! cannot hide behind a wall of harmless capabilities.

use vstd::prelude::*;
use crate::sandbox::{KindView, Permission, PermissionKind, PermissionView, Risk, Sandbox, perm_views};
use crate::text::{
    chars_of, ends_with, ends_with_lit, eq_lit, join, push_str, slice_chars, split, split_once,
    split_once_chars, starts_with, starts_with_lit, string_of,
};

verus! {

/// Where a permission path is, in words.
pub open spec fn describe(path: Seq<char>) -> Seq<char> {
    if path == "xdg-download"@ {
        "your Downloads folder"@
    } else if path == "xdg-documents"@ {
        "your Documents folder"@
    } else if path == "xdg-pictures"@ {
        "your Pictures folder"@
    } else if path == "xdg-music"@ {
        "your Music folder"@
    } else if path == "xdg-videos"@ {
        "your Videos folder"@
    } else if path == "xdg-config"@ {
        "application settings"@
    } else if path == "xdg-cache"@ {
        "cached data"@
    } else if starts_with(path, "xdg-run/"@) {
        "the "@ + strip_all_prefix(path, "xdg-run/"@) + " runtime directory"@
    } else {
        path
    }
}

/// `s` with every leading repetition of `p` removed (`trim_start_matches`).
pub open spec fn strip_all_prefix(s: Seq<char>, p: Seq<char>) -> Seq<char>
    decreases s.len(),
{
    if p.len() > 0 && starts_with(s, p) {
        strip_all_prefix(s.skip(p.len() as int), p)
    } else {
        s
    }
}

/// What a grant amounts to: its kind, grade and wording.
pub struct Grade {
    pub kind: KindView,
    pub risk: Risk,
    pub summary: Seq<char>,
    pub detail: Seq<char>,
}

pub open spec fn mk_grade(kind: KindView, risk: Risk, summary: Seq<char>, detail: Seq<char>) -> Grade {
    Grade { kind, risk, summary, detail }
}

/// The grading table: `key` is the `[Context]` key, `bare` the value with
/// any `:ro` suffix removed, `read_only` whether it had one.
pub open spec fn grade(key: Seq<char>, bare: Seq<char>, read_only: bool) -> Grade {
    if key == "filesystems"@ {
        if bare == "host"@ {
            mk_grade(KindView::HostFilesystem, Risk::Critical,
                "Read and change every file on this computer"@,
                "Nothing on your disk is off limits — documents, photos, saved passwords, other apps' data, and system files. The sandbox is not protecting you."@)
        } else if bare == "host-os"@ || bare == "host-etc"@ {
            mk_grade(KindView::Filesystem(bare), Risk::Caution,
                "Read system files and configuration"@,
                "Can inspect how this machine is set up, though not your personal files."@)
        } else if bare == "home"@ {
            mk_grade(KindView::HomeFilesystem, Risk::Critical,
                "Read and change everything in your home folder"@,
                "Every document, photo, and config file you own, including data belonging to other applications."@)
        } else {
            mk_grade(KindView::Filesystem(bare),
                if starts_with(bare, "xdg-run/"@) || bare == "xdg-download"@ { Risk::Safe } else { Risk::Caution },
                (if read_only { "Read"@ } else { "Read and change"@ }) + " "@ + describe(bare),
                "Access is limited to "@ + describe(bare) + "."@)
        }
    } else if key == "shared"@ && bare == "network"@ {
        mk_grade(KindView::Network, Risk::Caution, "Access the internet"@,
            "Can send and receive data, including anything else it is able to read."@)
    } else if key == "shared"@ && bare == "ipc"@ {
        mk_grade(KindView::Ipc, Risk::Safe, "Communicate with the desktop"@,
            "Standard plumbing used for things like window management."@)
    } else if key == "sockets"@ && (bare == "x11"@ || bare == "fallback-x11"@) {
        mk_grade(KindView::X11, Risk::Caution, "Use the older X11 display system"@,
            "X11 gives no isolation between windows: an app using it can read what you type into other applications and capture their contents."@)
    } else if key == "sockets"@ && bare == "wayland"@ {
        mk_grade(KindView::Wayland, Risk::Safe, "Draw its window"@,
            "Wayland isolates applications from one another."@)
    } else if key == "sockets"@ && bare == "pulseaudio"@ {
        mk_grade(KindView::Audio, Risk::Caution, "Play and record audio"@,
            "Includes microphone access — this permission does not distinguish between playback and recording."@)
    } else if key == "sockets"@ && bare == "session-bus"@ {
        mk_grade(KindView::SessionBus, Risk::Critical, "Talk to any program in your session"@,
            "Unrestricted session bus access lets it drive other applications, which is enough to work around most other restrictions."@)
    } else if key == "sockets"@ && bare == "system-bus"@ {
        mk_grade(KindView::SystemBus, Risk::Critical, "Talk to system services"@,
            "Can reach privileged services that manage the machine itself."@)
    } else if key == "sockets"@ && bare == "ssh-auth"@ {
        mk_grade(KindView::Other("ssh-auth"@), Risk::Critical, "Use your SSH keys"@,
            "Can authenticate to any server you can, as you."@)
    } else if key == "sockets"@ && bare == "cups"@ {
        mk_grade(KindView::Other("cups"@), Risk::Safe, "Print"@,
            "Can send documents to your printers."@)
    } else if key == "devices"@ && bare == "all"@ {
        mk_grade(KindView::AllDevices, Risk::Critical, "Use every device, including your camera"@,
            "Unrestricted device access covers webcams, microphones, and connected hardware, with no further prompt."@)
    } else if key == "devices"@ && bare == "dri"@ {
        mk_grade(KindView::Gpu, Risk::Safe, "Use the graphics card"@,
            "Needed by anything that renders or plays video."@)
    } else if key == "devices"@ {
        mk_grade(KindView::Other(bare), Risk::Caution, "Use "@ + bare + " devices"@,
            "Direct hardware access."@)
    } else {
        mk_grade(KindView::Other(bare), Risk::Caution, key + ": "@ + bare,
            "AppsScope does not recognise this permission, so it is shown unchanged rather than hidden."@)
    }
}

/// Whether a grant is load-bearing: revoking Wayland or GPU access stops the
/// app drawing at all, so no switch is offered for them.
pub open spec fn load_bearing(key: Seq<char>, bare: Seq<char>) -> bool {
    (key == "sockets"@ && bare == "wayland"@) || (key == "devices"@ && bare == "dri"@)
}

/// The override token for a grant: `key:value`.
pub open spec fn override_token(key: Seq<char>, value: Seq<char>) -> Seq<char> {
    key + ":"@ + value
}

/// A value with any `:ro` suffix removed.
pub open spec fn bare_value(value: Seq<char>) -> Seq<char> {
    if ends_with(value, ":ro"@) { value.take(value.len() - 3) } else { value }
}

/// Whether a value carries the `:ro` suffix.
pub open spec fn is_read_only(value: Seq<char>) -> bool {
    ends_with(value, ":ro"@)
}

/// The permission one `[Context]` grant amounts to, given the override
/// tokens the user has revoked.
pub open spec fn classify_view(key: Seq<char>, value: Seq<char>, revoked: Set<Seq<char>>) -> PermissionView {
    let g = grade(key, bare_value(value), is_read_only(value));
    PermissionView {
        kind: g.kind,
        risk: g.risk,
        summary: g.summary,
        detail: g.detail,
        override_key: if load_bearing(key, bare_value(value)) { None } else { Some(override_token(key, value)) },
        revoked: revoked.contains(override_token(key, value)),
    }
}

/// The permission a D-Bus peer amounts to, or `None` for the routine peers
/// (notifications, status icons, session management) that would only add
/// noise.
pub open spec fn classify_bus_view(name: Seq<char>, revoked: Set<Seq<char>>) -> Option<PermissionView> {
    let token = "bus:"@ + name;
    let g = if starts_with(name, "org.freedesktop.Flatpak"@) {
        Some(mk_grade(KindView::FlatpakEscape, Risk::Critical, "Control Flatpak itself"@,
            "This lets the app run commands outside its sandbox and change its own permissions. Every other restriction here is effectively voluntary."@))
    } else if name == "org.freedesktop.secrets"@ {
        Some(mk_grade(KindView::Secrets, Risk::Critical, "Read your saved passwords"@,
            "Access to the system keyring, where applications store credentials."@))
    } else if starts_with(name, "org.freedesktop.impl.portal"@) {
        Some(mk_grade(KindView::Other(name), Risk::Caution, "Provide desktop dialogs"@,
            "Implements portal dialogs on behalf of the desktop."@))
    } else {
        None
    };
    match g {
        Some(g) => Some(PermissionView {
            kind: g.kind,
            risk: g.risk,
            summary: g.summary,
            detail: g.detail,
            override_key: Some(token),
            revoked: revoked.contains(token),
        }),
        None => None,
    }
}

/// The set of strings a list holds.
pub open spec fn string_set(v: Seq<String>) -> Set<Seq<char>> {
    Set::new(|k: Seq<char>| exists|i: int| 0 <= i < v.len() && (#[trigger] v[i])@ == k)
}

/// Whether `k` is one of the strings in `v`.
pub fn contains_string(v: &Vec<String>, k: &String) -> (r: bool)
    ensures
        r == string_set(v@).contains(k@),
{
    let mut i: usize = 0;
    while i < v.len()
        invariant
            i <= v@.len(),
            forall|j: int| 0 <= j < i ==> (#[trigger] v@[j])@ != k@,
        decreases v@.len() - i,
    {
        if v[i].eq(k) {
            assert(string_set(v@).contains(k@));
            return true;
        }
        i = i + 1;
    }
    false
}

/// Describe a permission path in words.
pub fn describe_path(path: &str) -> (s: String)
    ensures
        s@ == describe(path@),
{
    let v = chars_of(path);
    if eq_lit(&v, "xdg-download") {
        "your Downloads folder".to_owned()
    } else if eq_lit(&v, "xdg-documents") {
        "your Documents folder".to_owned()
    } else if eq_lit(&v, "xdg-pictures") {
        "your Pictures folder".to_owned()
    } else if eq_lit(&v, "xdg-music") {
        "your Music folder".to_owned()
    } else if eq_lit(&v, "xdg-videos") {
        "your Videos folder".to_owned()
    } else if eq_lit(&v, "xdg-config") {
        "application settings".to_owned()
    } else if eq_lit(&v, "xdg-cache") {
        "cached data".to_owned()
    } else if starts_with_lit(&v, "xdg-run/") {
        let rest = strip_all_prefix_lit(&v, "xdg-run/");
        let mut s = "the ".to_owned();
        push_str(&mut s, string_of(&rest).as_str());
        push_str(&mut s, " runtime directory");
        s
    } else {
        path.to_owned()
    }
}

/// `v` with every leading repetition of `lit` removed.
fn strip_all_prefix_lit(v: &[char], lit: &str) -> (r: Vec<char>)
    ensures
        r@ == strip_all_prefix(v@, lit@),
{
    let p = chars_of(lit);
    let mut cur = slice_chars(v, 0, v.len());
    assert(cur@ == v@);
    if p.len() == 0 {
        return cur;
    }
    while starts_with_lit(&cur, lit)
        invariant
            p@ == lit@,
            p@.len() > 0,
            strip_all_prefix(cur@, lit@) == strip_all_prefix(v@, lit@),
        decreases cur@.len(),
    {
        let next = slice_chars(&cur, p.len(), cur.len());
        assert(next@ == cur@.skip(p@.len() as int));
        cur = next;
    }
    cur
}


/// The grading table, executed.
fn grade_of(key: &[char], bare: &[char], read_only: bool) -> (r: (PermissionKind, Risk, String, String))
    ensures
        r.0@ == grade(key@, bare@, read_only).kind,
        r.1 == grade(key@, bare@, read_only).risk,
        r.2@ == grade(key@, bare@, read_only).summary,
        r.3@ == grade(key@, bare@, read_only).detail,
{
    if eq_lit(key, "filesystems") {
        if eq_lit(bare, "host") {
            (PermissionKind::HostFilesystem, Risk::Critical,
                "Read and change every file on this computer".to_owned(),
                "Nothing on your disk is off limits — documents, photos, saved passwords, other apps' data, and system files. The sandbox is not protecting you.".to_owned())
        } else if eq_lit(bare, "host-os") || eq_lit(bare, "host-etc") {
            (PermissionKind::Filesystem(string_of(bare)), Risk::Caution,
                "Read system files and configuration".to_owned(),
                "Can inspect how this machine is set up, though not your personal files.".to_owned())
        } else if eq_lit(bare, "home") {
            (PermissionKind::HomeFilesystem, Risk::Critical,
                "Read and change everything in your home folder".to_owned(),
                "Every document, photo, and config file you own, including data belonging to other applications.".to_owned())
        } else {
            // xdg-run/* is the sandbox's own runtime dir — routine plumbing.
            let routine = starts_with_lit(bare, "xdg-run/") || eq_lit(bare, "xdg-download");
            let path = string_of(bare);
            let place = describe_path(path.as_str());
            let mut summary = if read_only { "Read".to_owned() } else { "Read and change".to_owned() };
            push_str(&mut summary, " ");
            push_str(&mut summary, place.as_str());
            let mut detail = "Access is limited to ".to_owned();
            push_str(&mut detail, place.as_str());
            push_str(&mut detail, ".");
            (PermissionKind::Filesystem(path), if routine { Risk::Safe } else { Risk::Caution }, summary, detail)
        }
    } else if eq_lit(key, "shared") && eq_lit(bare, "network") {
        (PermissionKind::Network, Risk::Caution, "Access the internet".to_owned(),
            "Can send and receive data, including anything else it is able to read.".to_owned())
    } else if eq_lit(key, "shared") && eq_lit(bare, "ipc") {
        (PermissionKind::Ipc, Risk::Safe, "Communicate with the desktop".to_owned(),
            "Standard plumbing used for things like window management.".to_owned())
    } else if eq_lit(key, "sockets") && (eq_lit(bare, "x11") || eq_lit(bare, "fallback-x11")) {
        (PermissionKind::X11, Risk::Caution, "Use the older X11 display system".to_owned(),
            "X11 gives no isolation between windows: an app using it can read what you type into other applications and capture their contents.".to_owned())
    } else if eq_lit(key, "sockets") && eq_lit(bare, "wayland") {
        (PermissionKind::Wayland, Risk::Safe, "Draw its window".to_owned(),
            "Wayland isolates applications from one another.".to_owned())
    } else if eq_lit(key, "sockets") && eq_lit(bare, "pulseaudio") {
        (PermissionKind::Audio, Risk::Caution, "Play and record audio".to_owned(),
            "Includes microphone access — this permission does not distinguish between playback and recording.".to_owned())
    } else if eq_lit(key, "sockets") && eq_lit(bare, "session-bus") {
        (PermissionKind::SessionBus, Risk::Critical, "Talk to any program in your session".to_owned(),
            "Unrestricted session bus access lets it drive other applications, which is enough to work around most other restrictions.".to_owned())
    } else if eq_lit(key, "sockets") && eq_lit(bare, "system-bus") {
        (PermissionKind::SystemBus, Risk::Critical, "Talk to system services".to_owned(),
            "Can reach privileged services that manage the machine itself.".to_owned())
    } else if eq_lit(key, "sockets") && eq_lit(bare, "ssh-auth") {
        (PermissionKind::Other("ssh-auth".to_owned()), Risk::Critical, "Use your SSH keys".to_owned(),
            "Can authenticate to any server you can, as you.".to_owned())
    } else if eq_lit(key, "sockets") && eq_lit(bare, "cups") {
        (PermissionKind::Other("cups".to_owned()), Risk::Safe, "Print".to_owned(),
            "Can send documents to your printers.".to_owned())
    } else if eq_lit(key, "devices") && eq_lit(bare, "all") {
        (PermissionKind::AllDevices, Risk::Critical, "Use every device, including your camera".to_owned(),
            "Unrestricted device access covers webcams, microphones, and connected hardware, with no further prompt.".to_owned())
    } else if eq_lit(key, "devices") && eq_lit(bare, "dri") {
        (PermissionKind::Gpu, Risk::Safe, "Use the graphics card".to_owned(),
            "Needed by anything that renders or plays video.".to_owned())
    } else if eq_lit(key, "devices") {
        let name = string_of(bare);
        let mut summary = "Use ".to_owned();
        push_str(&mut summary, name.as_str());
        push_str(&mut summary, " devices");
        (PermissionKind::Other(name), Risk::Caution, summary, "Direct hardware access.".to_owned())
    } else {
        let name = string_of(bare);
        let mut summary = string_of(key);
        push_str(&mut summary, ": ");
        push_str(&mut summary, name.as_str());
        (PermissionKind::Other(name), Risk::Caution, summary,
            "AppsScope does not recognise this permission, so it is shown unchanged rather than hidden.".to_owned())
    }
}

/// Grade one `[Context]` grant (`key=value`), marking it revoked when its
/// override token is among `revoked`.
///
/// Every grant yields a permission: one this module does not recognise is
/// shown unchanged rather than hidden.
pub fn classify(key: &str, value: &str, revoked: &Vec<String>) -> (r: Option<Permission>)
    ensures
        r matches Some(p) && p@ == classify_view(key@, value@, string_set(revoked@)),
{
    let mut token = key.to_owned();
    push_str(&mut token, ":");
    push_str(&mut token, value);
    let is_revoked = contains_string(revoked, &token);

    let key_chars = chars_of(key);
    let value_chars = chars_of(value);
    // Read-only mounts are written `path:ro`; grade the path, note the mode.
    let read_only = ends_with_lit(&value_chars, ":ro");
    proof {
        reveal_strlit(":ro");
    }
    let bare = if read_only {
        slice_chars(&value_chars, 0, value_chars.len() - 3)
    } else {
        slice_chars(&value_chars, 0, value_chars.len())
    };
    assert(bare@ == bare_value(value@));
    let (kind, risk, summary, detail) = grade_of(&key_chars, &bare, read_only);
    // Wayland and GPU access are load-bearing: revoking them stops the app
    // drawing at all, so no switch is offered that only breaks things.
    let load_bearing = (eq_lit(&key_chars, "sockets") && eq_lit(&bare, "wayland"))
        || (eq_lit(&key_chars, "devices") && eq_lit(&bare, "dri"));
    Some(Permission {
        kind,
        risk,
        summary,
        detail,
        override_key: if load_bearing { None } else { Some(token) },
        revoked: is_revoked,
    })
}

/// Grade one D-Bus peer the app may talk to.
///
/// Returns `None` for routine peers (notifications, status icons, session
/// management), which would only add noise.
pub fn classify_bus(name: &str, revoked: &Vec<String>) -> (r: Option<Permission>)
    ensures
        match (r, classify_bus_view(name@, string_set(revoked@))) {
            (Some(p), Some(v)) => p@ == v,
            (None, None) => true,
            _ => false,
        },
{
    let mut token = "bus:".to_owned();
    push_str(&mut token, name);
    let is_revoked = contains_string(revoked, &token);
    let v = chars_of(name);
    let (kind, risk, summary, detail) = if starts_with_lit(&v, "org.freedesktop.Flatpak") {
        // The escape hatch: an app that can talk to Flatpak can rewrite its
        // own permissions, which makes every other restriction advisory.
        (PermissionKind::FlatpakEscape, Risk::Critical, "Control Flatpak itself".to_owned(),
            "This lets the app run commands outside its sandbox and change its own permissions. Every other restriction here is effectively voluntary.".to_owned())
    } else if eq_lit(&v, "org.freedesktop.secrets") {
        (PermissionKind::Secrets, Risk::Critical, "Read your saved passwords".to_owned(),
            "Access to the system keyring, where applications store credentials.".to_owned())
    } else if starts_with_lit(&v, "org.freedesktop.impl.portal") {
        (PermissionKind::Other(name.to_owned()), Risk::Caution, "Provide desktop dialogs".to_owned(),
            "Implements portal dialogs on behalf of the desktop.".to_owned())
    } else {
        return None;
    };
    Some(Permission { kind, risk, summary, detail, override_key: Some(token), revoked: is_revoked })
}


/// One peer in a D-Bus policy group: `name=policy`.
#[derive(Debug, Clone)]
pub struct BusPeer {
    pub name: String,
    pub policy: String,
}

/// What the grading reads from a Flatpak metadata or override keyfile.
///
/// The `[Context]` lists hold the values as the keyfile's string-list
/// reader returns them, empty strings included; the bus groups hold every
/// peer in file order with its policy value.
#[derive(Debug, Clone)]
pub struct SandboxFile {
    pub filesystems: Vec<String>,
    pub shared: Vec<String>,
    pub sockets: Vec<String>,
    pub devices: Vec<String>,
    pub session_bus: Vec<BusPeer>,
    pub system_bus: Vec<BusPeer>,
}

/// Permissions granted by one `[Context]` list, in order. Empty values and
/// removals (a leading `!`) grant nothing.
pub open spec fn context_perms(key: Seq<char>, values: Seq<String>, revoked: Set<Seq<char>>) -> Seq<PermissionView>
    decreases values.len(),
{
    if values.len() == 0 {
        Seq::empty()
    } else {
        let prev = context_perms(key, values.drop_last(), revoked);
        let v = values.last()@;
        if v.len() == 0 || starts_with(v, "!"@) {
            prev
        } else {
            prev.push(classify_view(key, v, revoked))
        }
    }
}

/// Permissions granted by one bus policy group, in order. `see` is far
/// weaker than `talk`/`own` and grants nothing worth showing.
pub open spec fn bus_perms(peers: Seq<BusPeer>, revoked: Set<Seq<char>>) -> Seq<PermissionView>
    decreases peers.len(),
{
    if peers.len() == 0 {
        Seq::empty()
    } else {
        let prev = bus_perms(peers.drop_last(), revoked);
        let peer = peers.last();
        if peer.policy@ == "see"@ {
            prev
        } else {
            match classify_bus_view(peer.name@, revoked) {
                Some(p) => prev.push(p),
                None => prev,
            }
        }
    }
}

/// Every permission a metadata file grants, before duplicates are folded.
pub open spec fn granted(f: SandboxFile, revoked: Set<Seq<char>>) -> Seq<PermissionView> {
    context_perms("filesystems"@, f.filesystems@, revoked)
        + context_perms("shared"@, f.shared@, revoked)
        + context_perms("sockets"@, f.sockets@, revoked)
        + context_perms("devices"@, f.devices@, revoked)
        + bus_perms(f.session_bus@, revoked)
        + bus_perms(f.system_bus@, revoked)
}

/// `ps` with each run of consecutive permissions of one kind reduced to its
/// first (`Vec::dedup_by` on the kind).
pub open spec fn dedup_kinds(ps: Seq<PermissionView>) -> Seq<PermissionView>
    decreases ps.len(),
{
    if ps.len() == 0 {
        ps
    } else {
        let d = dedup_kinds(ps.drop_last());
        if d.len() > 0 && d.last().kind == ps.last().kind {
            d
        } else {
            d.push(ps.last())
        }
    }
}

/// Override tokens an override list revokes: each `!x` in the list for `key`
/// takes `key:x` away.
pub open spec fn revoked_in(key: Seq<char>, values: Seq<String>) -> Set<Seq<char>> {
    Set::new(|k: Seq<char>| exists|i: int| 0 <= i < values.len() && (#[trigger] values[i])@.len() > 0
        && values[i]@[0] == '!' && k == override_token(key, values[i]@.skip(1)))
}

/// Override tokens a bus policy group revokes: a peer whose policy is set to
/// `none` takes `bus:name` away.
pub open spec fn revoked_bus(peers: Seq<BusPeer>) -> Set<Seq<char>> {
    Set::new(|k: Seq<char>| exists|i: int| 0 <= i < peers.len() && (#[trigger] peers[i]).policy@ == "none"@
        && k == "bus:"@ + peers[i].name@)
}

/// Every override token an override file revokes: the `!x` entries of its
/// `[Context]` lists, and the bus peers it sets to `none`. The bus token
/// names the peer only, so a peer set to `none` in either bus group
/// revokes that peer's grant wherever the metadata makes it.
pub open spec fn revoked_tokens(f: SandboxFile) -> Set<Seq<char>> {
    revoked_in("filesystems"@, f.filesystems@)
        + revoked_in("shared"@, f.shared@)
        + revoked_in("sockets"@, f.sockets@)
        + revoked_in("devices"@, f.devices@)
        + revoked_bus(f.session_bus@)
        + revoked_bus(f.system_bus@)
}

/// The file a reference points at, if any.
pub open spec fn opt_file(f: Option<&SandboxFile>) -> Option<SandboxFile> {
    match f {
        Some(f) => Some(*f),
        None => None,
    }
}

/// An app's sandbox profile: the graded grants of its metadata, each marked
/// revoked when the overrides take it away. No metadata (a file that could
/// not be read) means no permissions.
pub open spec fn parse_view(metadata: Option<SandboxFile>, overrides: Option<SandboxFile>) -> Seq<PermissionView> {
    match metadata {
        None => Seq::empty(),
        Some(m) => dedup_kinds(granted(m, match overrides {
            Some(o) => revoked_tokens(o),
            None => Set::empty(),
        })),
    }
}

/// Override tokens the user has already revoked, as `key:value` strings.
pub fn revoked_keys(overrides: &SandboxFile) -> (r: Vec<String>)
    ensures
        string_set(r@) == revoked_tokens(*overrides),
{
    let mut out: Vec<String> = Vec::new();
    assert(string_set(out@) =~= Set::<Seq<char>>::empty());
    collect_revoked(&mut out, "filesystems", &overrides.filesystems);
    collect_revoked(&mut out, "shared", &overrides.shared);
    collect_revoked(&mut out, "sockets", &overrides.sockets);
    collect_revoked(&mut out, "devices", &overrides.devices);
    collect_bus_revoked(&mut out, &overrides.session_bus);
    collect_bus_revoked(&mut out, &overrides.system_bus);
    assert(string_set(out@) =~= revoked_tokens(*overrides));
    out
}

proof fn lemma_string_set_push(before: Seq<String>, t: String)
    ensures
        string_set(before.push(t)) == string_set(before).insert(t@),
{
    let after = before.push(t);
    assert forall|k: Seq<char>| string_set(after).contains(k) implies string_set(before).insert(t@).contains(k) by {
        let j = choose|j: int| 0 <= j < after.len() && (#[trigger] after[j])@ == k;
        if j < before.len() {
            assert(before[j] == after[j]);
        }
    }
    assert forall|k: Seq<char>| string_set(before).insert(t@).contains(k) implies string_set(after).contains(k) by {
        if k == t@ {
            assert(after[before.len() as int] == t);
        } else {
            let j = choose|j: int| 0 <= j < before.len() && (#[trigger] before[j])@ == k;
            assert(after[j] == before[j]);
        }
    }
    assert(string_set(after) =~= string_set(before).insert(t@));
}

/// Append the tokens a bus policy group revokes.
fn collect_bus_revoked(out: &mut Vec<String>, peers: &Vec<BusPeer>)
    ensures
        string_set(final(out)@) == string_set(old(out)@) + revoked_bus(peers@),
{
    let ghost start = string_set(old(out)@);
    let mut i: usize = 0;
    assert(string_set(out@) =~= start + revoked_bus(peers@.take(0)));
    while i < peers.len()
        invariant
            i <= peers@.len(),
            string_set(out@) == start + revoked_bus(peers@.take(i as int)),
        decreases peers@.len() - i,
    {
        let ghost pre = peers@.take(i as int);
        let ghost now = peers@.take(i + 1 as int);
        let ghost before = out@;
        assert(now[i as int] == peers@[i as int]);
        let policy = chars_of(peers[i].policy.as_str());
        if eq_lit(&policy, "none") {
            let mut token = "bus:".to_owned();
            push_str(&mut token, peers[i].name.as_str());
            out.push(token);
            proof {
                lemma_string_set_push(before, token);
            }
            assert(revoked_bus(now) =~= revoked_bus(pre).insert(token@)) by {
                assert forall|k: Seq<char>| revoked_bus(now).contains(k) implies revoked_bus(pre).insert(token@).contains(k) by {
                    let j = choose|j: int| 0 <= j < now.len() && (#[trigger] now[j]).policy@ == "none"@
                        && k == "bus:"@ + now[j].name@;
                    if j < i {
                        assert(pre[j] == now[j]);
                    }
                }
                assert forall|k: Seq<char>| revoked_bus(pre).insert(token@).contains(k) implies revoked_bus(now).contains(k) by {
                    if k == token@ {
                        assert(now[i as int].policy@ == "none"@);
                    } else {
                        let j = choose|j: int| 0 <= j < pre.len() && (#[trigger] pre[j]).policy@ == "none"@
                            && k == "bus:"@ + pre[j].name@;
                        assert(now[j] == pre[j]);
                    }
                }
            }
        } else {
            assert(revoked_bus(now) =~= revoked_bus(pre)) by {
                assert forall|k: Seq<char>| revoked_bus(now).contains(k) implies revoked_bus(pre).contains(k) by {
                    let j = choose|j: int| 0 <= j < now.len() && (#[trigger] now[j]).policy@ == "none"@
                        && k == "bus:"@ + now[j].name@;
                    if j < i {
                        assert(pre[j] == now[j]);
                    }
                }
                assert forall|k: Seq<char>| revoked_bus(pre).contains(k) implies revoked_bus(now).contains(k) by {
                    let j = choose|j: int| 0 <= j < pre.len() && (#[trigger] pre[j]).policy@ == "none"@
                        && k == "bus:"@ + pre[j].name@;
                    assert(now[j] == pre[j]);
                }
            }
        }
        i = i + 1;
    }
    assert(peers@.take(peers@.len() as int) == peers@);
}

/// Append the tokens `values` revokes for `key`.
fn collect_revoked(out: &mut Vec<String>, key: &str, values: &Vec<String>)
    ensures
        string_set(final(out)@) == string_set(old(out)@) + revoked_in(key@, values@),
{
    let ghost start = string_set(old(out)@);
    let mut i: usize = 0;
    assert(string_set(out@) =~= start + revoked_in(key@, values@.take(0)));
    while i < values.len()
        invariant
            i <= values@.len(),
            string_set(out@) == start + revoked_in(key@, values@.take(i as int)),
        decreases values@.len() - i,
    {
        let v = chars_of(values[i].as_str());
        let ghost pre = values@.take(i as int);
        let ghost now = values@.take(i + 1 as int);
        let ghost before = out@;
        assert(now[i as int] == values@[i as int]);
        if v.len() > 0 && v[0] == '!' {
            let rest = slice_chars(&v, 1, v.len());
            let mut token = key.to_owned();
            push_str(&mut token, ":");
            push_str(&mut token, string_of(&rest).as_str());
            assert(rest@ == values@[i as int]@.skip(1));
            out.push(token);
            assert(string_set(out@) =~= string_set(before).insert(token@)) by {
                assert forall|k: Seq<char>| string_set(out@).contains(k) implies string_set(before).insert(token@).contains(k) by {
                    let j = choose|j: int| 0 <= j < out@.len() && (#[trigger] out@[j])@ == k;
                    if j < before.len() {
                        assert(before[j] == out@[j]);
                    }
                }
                assert forall|k: Seq<char>| string_set(before).insert(token@).contains(k) implies string_set(out@).contains(k) by {
                    if k == token@ {
                        assert(out@[before.len() as int] == token);
                    } else {
                        let j = choose|j: int| 0 <= j < before.len() && (#[trigger] before[j])@ == k;
                        assert(out@[j] == before[j]);
                    }
                }
            }
            assert(revoked_in(key@, now) =~= revoked_in(key@, pre).insert(token@)) by {
                assert forall|k: Seq<char>| revoked_in(key@, now).contains(k) implies revoked_in(key@, pre).insert(token@).contains(k) by {
                    let j = choose|j: int| 0 <= j < now.len() && (#[trigger] now[j])@.len() > 0
                        && now[j]@[0] == '!' && k == override_token(key@, now[j]@.skip(1));
                    if j < i {
                        assert(pre[j] == now[j]);
                    }
                }
                assert forall|k: Seq<char>| revoked_in(key@, pre).insert(token@).contains(k) implies revoked_in(key@, now).contains(k) by {
                    if k == token@ {
                        assert(now[i as int]@ == v@);
                    } else {
                        let j = choose|j: int| 0 <= j < pre.len() && (#[trigger] pre[j])@.len() > 0
                            && pre[j]@[0] == '!' && k == override_token(key@, pre[j]@.skip(1));
                        assert(now[j] == pre[j]);
                    }
                }
            }
        } else {
            assert(revoked_in(key@, now) =~= revoked_in(key@, pre)) by {
                assert forall|k: Seq<char>| revoked_in(key@, now).contains(k) implies revoked_in(key@, pre).contains(k) by {
                    let j = choose|j: int| 0 <= j < now.len() && (#[trigger] now[j])@.len() > 0
                        && now[j]@[0] == '!' && k == override_token(key@, now[j]@.skip(1));
                    if j < i {
                        assert(pre[j] == now[j]);
                    } else {
                        assert(now[j]@ == v@);
                    }
                }
                assert forall|k: Seq<char>| revoked_in(key@, pre).contains(k) implies revoked_in(key@, now).contains(k) by {
                    let j = choose|j: int| 0 <= j < pre.len() && (#[trigger] pre[j])@.len() > 0
                        && pre[j]@[0] == '!' && k == override_token(key@, pre[j]@.skip(1));
                    assert(now[j] == pre[j]);
                }
            }
        }
        i = i + 1;
    }
    assert(values@.take(values@.len() as int) == values@);
}


/// Append the permissions one `[Context]` list grants.
fn push_context(out: &mut Vec<Permission>, key: &str, values: &Vec<String>, revoked: &Vec<String>)
    ensures
        perm_views(final(out)@) == perm_views(old(out)@) + context_perms(key@, values@, string_set(revoked@)),
{
    let ghost start = perm_views(old(out)@);
    let ghost rs = string_set(revoked@);
    let mut i: usize = 0;
    assert(perm_views(out@) =~= start + context_perms(key@, values@.take(0), rs));
    while i < values.len()
        invariant
            i <= values@.len(),
            rs == string_set(revoked@),
            perm_views(out@) == start + context_perms(key@, values@.take(i as int), rs),
        decreases values@.len() - i,
    {
        let value = values[i].as_str();
        let v = chars_of(value);
        let ghost before = out@;
        assert(values@.take(i + 1 as int).drop_last() == values@.take(i as int));
        assert(values@.take(i + 1 as int).last() == values@[i as int]);
        // Overrides can appear inside metadata too; a leading `!` is a
        // removal, not a grant.
        if v.len() > 0 && !starts_with_lit(&v, "!") {
            if let Some(permission) = classify(key, value, revoked) {
                out.push(permission);
                assert(perm_views(out@) =~= perm_views(before).push(permission@));
            }
        }
        i = i + 1;
    }
    assert(values@.take(values@.len() as int) == values@);
}

/// Append the permissions one bus policy group grants.
fn push_bus(out: &mut Vec<Permission>, peers: &Vec<BusPeer>, revoked: &Vec<String>)
    ensures
        perm_views(final(out)@) == perm_views(old(out)@) + bus_perms(peers@, string_set(revoked@)),
{
    let ghost start = perm_views(old(out)@);
    let ghost rs = string_set(revoked@);
    let mut i: usize = 0;
    assert(perm_views(out@) =~= start + bus_perms(peers@.take(0), rs));
    while i < peers.len()
        invariant
            i <= peers@.len(),
            rs == string_set(revoked@),
            perm_views(out@) == start + bus_perms(peers@.take(i as int), rs),
        decreases peers@.len() - i,
    {
        let peer = &peers[i];
        let ghost before = out@;
        assert(peers@.take(i + 1 as int).drop_last() == peers@.take(i as int));
        assert(peers@.take(i + 1 as int).last() == peers@[i as int]);
        let policy = chars_of(peer.policy.as_str());
        if !eq_lit(&policy, "see") {
            if let Some(permission) = classify_bus(peer.name.as_str(), revoked) {
                out.push(permission);
                assert(perm_views(out@) =~= perm_views(before).push(permission@));
            }
        }
        i = i + 1;
    }
    assert(peers@.take(peers@.len() as int) == peers@);
}

/// `ps` with each run of one kind reduced to its first permission.
fn dedup_by_kind(ps: Vec<Permission>) -> (r: Vec<Permission>)
    ensures
        perm_views(r@) == dedup_kinds(perm_views(ps@)),
{
    let ghost orig = perm_views(ps@);
    let mut rest = ps;
    let mut out: Vec<Permission> = Vec::new();
    let ghost mut k: int = 0;
    assert(perm_views(out@) =~= dedup_kinds(orig.take(0)));
    assert(perm_views(rest@) =~= orig.skip(0));
    while rest.len() > 0
        invariant
            0 <= k <= orig.len(),
            perm_views(out@) == dedup_kinds(orig.take(k)),
            perm_views(rest@) == orig.skip(k),
            rest@.len() == orig.len() - k,
        decreases rest@.len(),
    {
        let ghost before = out@;
        let ghost rest_before = rest@;
        let x = rest.remove(0);
        assert(perm_views(rest_before)[0] == x@);
        assert(orig[k] == x@);
        assert(orig.take(k + 1).drop_last() =~= orig.take(k));
        assert(orig.take(k + 1).last() == x@);
        let keep = out.len() == 0 || !out[out.len() - 1].kind.same_as(&x.kind);
        if keep {
            out.push(x);
            assert(perm_views(out@) =~= perm_views(before).push(x@));
        }
        assert(rest@ =~= rest_before.skip(1));
        assert(perm_views(rest@) =~= perm_views(rest_before).skip(1));
        proof {
            k = k + 1;
        }
        assert(perm_views(rest@) =~= orig.skip(k));
    }
    assert(orig.take(k) =~= orig);
    out
}

/// Parse an app's sandbox profile from its metadata, folding in the
/// overrides the user has set.
///
/// `metadata` is `None` when the metadata could not be read, which yields an
/// empty profile; `overrides` is `None` when there are none (or they could
/// not be read), in which case nothing counts as revoked.
pub fn parse(metadata: Option<&SandboxFile>, overrides: Option<&SandboxFile>) -> (s: Sandbox)
    ensures
        s@ == parse_view(opt_file(metadata), opt_file(overrides)),
{
    let Some(file) = metadata else {
        let s = Sandbox::empty();
        assert(s@ =~= Seq::<PermissionView>::empty());
        return s;
    };
    let revoked = match overrides {
        Some(o) => revoked_keys(o),
        None => {
            let v: Vec<String> = Vec::new();
            assert(string_set(v@) =~= Set::<Seq<char>>::empty());
            v
        },
    };
    let mut permissions: Vec<Permission> = Vec::new();
    assert(perm_views(permissions@) =~= Seq::<PermissionView>::empty());
    push_context(&mut permissions, "filesystems", &file.filesystems, &revoked);
    push_context(&mut permissions, "shared", &file.shared, &revoked);
    push_context(&mut permissions, "sockets", &file.sockets, &revoked);
    push_context(&mut permissions, "devices", &file.devices, &revoked);
    // Bus access is expressed as one key per peer, not a list.
    push_bus(&mut permissions, &file.session_bus, &revoked);
    push_bus(&mut permissions, &file.system_bus, &revoked);
    proof {
        let rs = string_set(revoked@);
        assert(perm_views(permissions@) =~= granted(*file, rs));
    }
    // Two apps can declare the same capability twice across keys.
    let permissions = dedup_by_kind(permissions);
    Sandbox { permissions }
}


/// The contents of each string in `v`.
pub open spec fn strings(v: Seq<String>) -> Seq<Seq<char>> {
    v.map_values(|x: String| x@)
}

/// Whether an existing override entry survives an edit that writes
/// `negated`: empty entries and earlier copies of `negated` go.
pub open spec fn keep_entry(x: Seq<char>, negated: Seq<char>) -> bool {
    x.len() > 0 && x != negated
}

/// A `[Context]` override list after revoking (`granted == false`) or
/// restoring (`granted == true`) `value`: any `!value` already there is
/// dropped, and revoking appends exactly one.
pub open spec fn revise(l: Seq<Seq<char>>, value: Seq<char>, granted: bool) -> Seq<Seq<char>> {
    let negated = "!"@ + value;
    let kept = l.filter(|x: Seq<char>| keep_entry(x, negated));
    if granted { kept } else { kept.push(negated) }
}

/// Items joined by `;`.
pub open spec fn join_semicolons(items: Seq<Seq<char>>) -> Seq<char>
    decreases items.len(),
{
    if items.len() == 0 {
        Seq::empty()
    } else if items.len() == 1 {
        items[0]
    } else {
        join_semicolons(items.drop_last()) + ";"@ + items.last()
    }
}

/// Split a permission's override token `key:value` at its first colon.
pub fn split_permission_key(token: &str) -> (r: Option<(String, String)>)
    ensures
        match (r, split_once(token@, ':')) {
            (Some((a, b)), Some((x, y))) => a@ == x && b@ == y,
            (None, None) => true,
            _ => false,
        },
{
    let v = chars_of(token);
    match split_once_chars(&v, ':') {
        Some((a, b)) => Some((string_of(&a), string_of(&b))),
        None => None,
    }
}

/// Revise a `[Context]` override list for one value; see [`revise`].
pub fn revise_list(current: &Vec<String>, value: &str, granted: bool) -> (r: Vec<String>)
    ensures
        strings(r@) == revise(strings(current@), value@, granted),
{
    let mut negated = "!".to_owned();
    push_str(&mut negated, value);
    let ghost neg = negated@;
    let ghost pred = |x: Seq<char>| keep_entry(x, neg);
    let mut out: Vec<String> = Vec::new();
    let mut i: usize = 0;
    assert(strings(out@) =~= strings(current@).take(0).filter(pred)) by {
        reveal(Seq::filter);
    }
    while i < current.len()
        invariant
            i <= current@.len(),
            neg == negated@,
            neg == "!"@ + value@,
            pred == |x: Seq<char>| keep_entry(x, neg),
            strings(out@) == strings(current@).take(i as int).filter(pred),
        decreases current@.len() - i,
    {
        let item = &current[i];
        let ghost before = out@;
        proof {
            assert(strings(current@).take(i + 1 as int).drop_last() =~= strings(current@).take(i as int));
            assert(strings(current@).take(i + 1 as int).last() == item@);
            reveal(Seq::filter);
        }
        let empty = chars_of(item.as_str()).len() == 0;
        if !empty && !item.eq(&negated) {
            out.push(item.clone());
            assert(strings(out@) =~= strings(before).push(item@));
        }
        i = i + 1;
    }
    assert(strings(current@).take(current@.len() as int) =~= strings(current@));
    if !granted {
        let ghost before = out@;
        out.push(negated);
        assert(strings(out@) =~= strings(before).push(neg));
    }
    out
}

/// Flatpak's list form, semicolon-terminated: `!host;!home;`.
pub fn list_value(items: &Vec<String>) -> (s: String)
    ensures
        s@ == join_semicolons(strings(items@)) + ";"@,
        items@.len() > 0 && free_of_semicolons(strings(items@)) ==> split(s@, ';').drop_last()
            == strings(items@),
{
    let mut s = String::new();
    let mut i: usize = 0;
    while i < items.len()
        invariant
            i <= items@.len(),
            s@ == join_semicolons(strings(items@).take(i as int)),
        decreases items@.len() - i,
    {
        proof {
            let t = strings(items@).take(i + 1 as int);
            assert(t.drop_last() =~= strings(items@).take(i as int));
            assert(t.last() == items@[i as int]@);
            if i == 0 {
                assert(t.len() == 1);
            }
        }
        if i > 0 {
            push_str(&mut s, ";");
        }
        push_str(&mut s, items[i].as_str());
        i = i + 1;
    }
    assert(strings(items@).take(items@.len() as int) =~= strings(items@));
    push_str(&mut s, ";");
    proof {
        if items@.len() > 0 && free_of_semicolons(strings(items@)) {
            law_written_list_reads_back(strings(items@));
        }
    }
    s
}

/// What revoking or restoring one permission does to the override file.
#[derive(Debug, Clone)]
pub enum OverrideEdit {
    /// `[Session Bus Policy] name=none`: bus peers are revoked by policy,
    /// not by `!`.
    SetBusPolicyNone { name: String },
    /// Remove `name` from `[Session Bus Policy]`.
    RemoveBusPolicy { name: String },
    /// `[Context] key=value`.
    SetContext { key: String, value: String },
    /// Remove `key` from `[Context]`.
    RemoveContext { key: String },
}

/// Revoke (`granted == false`) or restore (`granted == true`) the permission
/// `group:value`, given the `[Context]` list currently stored for `group`.
pub fn override_edit(group: &str, value: &str, granted: bool, current: &Vec<String>) -> (e: OverrideEdit)
    ensures
        group@ == "bus"@ ==> match e {
            OverrideEdit::SetBusPolicyNone { name } => !granted && name@ == value@,
            OverrideEdit::RemoveBusPolicy { name } => granted && name@ == value@,
            _ => false,
        },
        group@ != "bus"@ ==> match e {
            OverrideEdit::SetContext { key, value: v } => key@ == group@
                && revise(strings(current@), value@, granted).len() > 0
                && v@ == join_semicolons(revise(strings(current@), value@, granted)) + ";"@
                && (free_of_semicolons(revise(strings(current@), value@, granted))
                    ==> split(v@, ';').drop_last() == revise(strings(current@), value@, granted)),
            OverrideEdit::RemoveContext { key } => key@ == group@
                && revise(strings(current@), value@, granted).len() == 0,
            _ => false,
        },
{
    let g = chars_of(group);
    if eq_lit(&g, "bus") {
        if granted {
            OverrideEdit::RemoveBusPolicy { name: value.to_owned() }
        } else {
            OverrideEdit::SetBusPolicyNone { name: value.to_owned() }
        }
    } else {
        let revised = revise_list(current, value, granted);
        if revised.len() == 0 {
            OverrideEdit::RemoveContext { key: group.to_owned() }
        } else {
            OverrideEdit::SetContext { key: group.to_owned(), value: list_value(&revised) }
        }
    }
}

/// Revoking twice is the same as revoking once, and restoring twice the same
/// as restoring once.
pub proof fn law_revise_idempotent(l: Seq<Seq<char>>, value: Seq<char>, granted: bool)
    ensures
        revise(revise(l, value, granted), value, granted) == revise(l, value, granted),
{
    lemma_revise_kept(l, value, granted);
}

/// Restoring after revoking leaves the list as restoring alone would, so a
/// revoke never lingers once undone; revoking after restoring is revoking.
pub proof fn law_restore_undoes_revoke(l: Seq<Seq<char>>, value: Seq<char>)
    ensures
        revise(revise(l, value, false), value, true) == revise(l, value, true),
        revise(revise(l, value, true), value, false) == revise(l, value, false),
{
    lemma_revise_kept(l, value, false);
    lemma_revise_kept(l, value, true);
}

/// The entries a revision keeps, filtered again, are unchanged.
proof fn lemma_revise_kept(l: Seq<Seq<char>>, value: Seq<char>, granted: bool)
    ensures
        revise(l, value, granted).filter(|x: Seq<char>| keep_entry(x, "!"@ + value))
            == l.filter(|x: Seq<char>| keep_entry(x, "!"@ + value)),
{
    let negated = "!"@ + value;
    let pred = |x: Seq<char>| keep_entry(x, negated);
    let kept = l.filter(pred);
    lemma_filter_idempotent(l, pred);
    if !granted {
        reveal(Seq::filter);
        assert(kept.push(negated).drop_last() =~= kept);
        assert(!pred(negated));
    }
}

/// Filtering twice by one predicate is filtering once.
proof fn lemma_filter_idempotent(l: Seq<Seq<char>>, pred: spec_fn(Seq<char>) -> bool)
    ensures
        l.filter(pred).filter(pred) == l.filter(pred),
    decreases l.len(),
{
    reveal(Seq::filter);
    if l.len() > 0 {
        lemma_filter_idempotent(l.drop_last(), pred);
        if pred(l.last()) {
            assert(l.filter(pred).drop_last() =~= l.drop_last().filter(pred));
        }
    }
}


/// Whether a permission that must not be switched off indeed offers no
/// switch.
pub open spec fn no_switch_if_load_bearing(p: PermissionView) -> bool {
    (p.kind == KindView::Wayland || p.kind == KindView::Gpu) ==> p.override_key is None
}

/// Whether a permission's revoked mark agrees with the revoked tokens.
pub open spec fn revoked_matches(p: PermissionView, revoked: Set<Seq<char>>) -> bool {
    p.override_key matches Some(k) ==> (p.revoked <==> revoked.contains(k))
}

proof fn lemma_dedup_subset(ps: Seq<PermissionView>)
    ensures
        forall|i: int| 0 <= i < dedup_kinds(ps).len() ==> ps.contains(#[trigger] dedup_kinds(ps)[i]),
    decreases ps.len(),
{
    if ps.len() > 0 {
        lemma_dedup_subset(ps.drop_last());
        let d = dedup_kinds(ps.drop_last());
        assert forall|i: int| 0 <= i < dedup_kinds(ps).len() implies ps.contains(#[trigger] dedup_kinds(ps)[i]) by {
            if i < d.len() {
                assert(dedup_kinds(ps)[i] == d[i]);
                let j = choose|j: int| 0 <= j < ps.drop_last().len() && ps.drop_last()[j] == d[i];
                assert(ps[j] == d[i]);
            } else {
                assert(dedup_kinds(ps)[i] == ps.last());
                assert(ps[ps.len() - 1] == ps.last());
            }
        }
    }
}

proof fn lemma_context_props(key: Seq<char>, values: Seq<String>, revoked: Set<Seq<char>>)
    ensures
        forall|i: int| 0 <= i < context_perms(key, values, revoked).len() ==>
            no_switch_if_load_bearing(#[trigger] context_perms(key, values, revoked)[i])
            && revoked_matches(context_perms(key, values, revoked)[i], revoked),
    decreases values.len(),
{
    if values.len() > 0 {
        lemma_context_props(key, values.drop_last(), revoked);
        let prev = context_perms(key, values.drop_last(), revoked);
        let v = values.last()@;
        if !(v.len() == 0 || starts_with(v, "!"@)) {
            let p = classify_view(key, v, revoked);
            assert(no_switch_if_load_bearing(p));
            assert(revoked_matches(p, revoked));
            assert forall|i: int| 0 <= i < prev.push(p).len() implies no_switch_if_load_bearing(#[trigger] prev.push(p)[i])
                && revoked_matches(prev.push(p)[i], revoked) by {
                if i < prev.len() {
                    assert(prev.push(p)[i] == prev[i]);
                }
            }
        }
    }
}

proof fn lemma_bus_props(peers: Seq<BusPeer>, revoked: Set<Seq<char>>)
    ensures
        forall|i: int| 0 <= i < bus_perms(peers, revoked).len() ==>
            no_switch_if_load_bearing(#[trigger] bus_perms(peers, revoked)[i])
            && revoked_matches(bus_perms(peers, revoked)[i], revoked),
    decreases peers.len(),
{
    if peers.len() > 0 {
        lemma_bus_props(peers.drop_last(), revoked);
        let prev = bus_perms(peers.drop_last(), revoked);
        let peer = peers.last();
        if peer.policy@ != "see"@ {
            if let Some(p) = classify_bus_view(peer.name@, revoked) {
                assert(no_switch_if_load_bearing(p));
                assert(revoked_matches(p, revoked));
                assert forall|i: int| 0 <= i < prev.push(p).len() implies no_switch_if_load_bearing(#[trigger] prev.push(p)[i])
                    && revoked_matches(prev.push(p)[i], revoked) by {
                    if i < prev.len() {
                        assert(prev.push(p)[i] == prev[i]);
                    }
                }
            }
        }
    }
}

/// Two properties of every permission in a parsed profile: Wayland and GPU
/// access, which the app cannot work without, never offer a switch; and a
/// permission that can be switched is marked revoked exactly when the
/// overrides revoke its token.
pub proof fn law_parsed_permissions_are_consistent(metadata: SandboxFile, overrides: Option<SandboxFile>)
    ensures
        ({
            let revoked = match overrides {
                Some(o) => revoked_tokens(o),
                None => Set::empty(),
            };
            let ps = parse_view(Some(metadata), overrides);
            forall|i: int| 0 <= i < ps.len() ==> no_switch_if_load_bearing(#[trigger] ps[i])
                && revoked_matches(ps[i], revoked)
        }),
{
    let revoked = match overrides {
        Some(o) => revoked_tokens(o),
        None => Set::empty(),
    };
    let a = context_perms("filesystems"@, metadata.filesystems@, revoked);
    let b = context_perms("shared"@, metadata.shared@, revoked);
    let c = context_perms("sockets"@, metadata.sockets@, revoked);
    let d = context_perms("devices"@, metadata.devices@, revoked);
    let e = bus_perms(metadata.session_bus@, revoked);
    let f = bus_perms(metadata.system_bus@, revoked);
    lemma_context_props("filesystems"@, metadata.filesystems@, revoked);
    lemma_context_props("shared"@, metadata.shared@, revoked);
    lemma_context_props("sockets"@, metadata.sockets@, revoked);
    lemma_context_props("devices"@, metadata.devices@, revoked);
    lemma_bus_props(metadata.session_bus@, revoked);
    lemma_bus_props(metadata.system_bus@, revoked);
    let all = granted(metadata, revoked);
    assert(all == a + b + c + d + e + f);
    assert forall|j: int| 0 <= j < all.len() implies no_switch_if_load_bearing(#[trigger] all[j])
        && revoked_matches(all[j], revoked) by {
        let ab = a + b;
        let abc = ab + c;
        let abcd = abc + d;
        let abcde = abcd + e;
        if j < a.len() {
            assert(all[j] == a[j]);
        } else if j < ab.len() {
            assert(all[j] == b[j - a.len()]);
        } else if j < abc.len() {
            assert(all[j] == c[j - ab.len()]);
        } else if j < abcd.len() {
            assert(all[j] == d[j - abc.len()]);
        } else if j < abcde.len() {
            assert(all[j] == e[j - abcd.len()]);
        } else {
            assert(all[j] == f[j - abcde.len()]);
        }
    }
    lemma_dedup_subset(all);
    let ps = parse_view(Some(metadata), overrides);
    assert forall|i: int| 0 <= i < ps.len() implies no_switch_if_load_bearing(#[trigger] ps[i])
        && revoked_matches(ps[i], revoked) by {
        let j = choose|j: int| 0 <= j < all.len() && all[j] == ps[i];
        assert(no_switch_if_load_bearing(all[j]));
    }
}

/// Whether a `[Context]` value grants anything: it is neither empty nor a
/// removal.
pub open spec fn is_grant(v: Seq<char>) -> bool {
    v.len() > 0 && !starts_with(v, "!"@)
}

/// Every grant in a `[Context]` list is graded — none is dropped for being
/// unrecognised — and the permissions come in the list's order.
pub proof fn law_every_grant_is_graded(key: Seq<char>, values: Seq<String>, revoked: Set<Seq<char>>)
    ensures
        context_perms(key, values, revoked) == strings(values).filter(|v: Seq<char>| is_grant(v)).map_values(
            |v: Seq<char>| classify_view(key, v, revoked)),
    decreases values.len(),
{
    reveal(Seq::filter);
    if values.len() > 0 {
        law_every_grant_is_graded(key, values.drop_last(), revoked);
        assert(strings(values).drop_last() =~= strings(values.drop_last()));
        assert(strings(values).last() == values.last()@);
        let g = strings(values.drop_last()).filter(|v: Seq<char>| is_grant(v));
        if is_grant(values.last()@) {
            assert(g.push(values.last()@).map_values(|v: Seq<char>| classify_view(key, v, revoked))
                =~= g.map_values(|v: Seq<char>| classify_view(key, v, revoked)).push(classify_view(key, values.last()@, revoked)));
        }
    } else {
        assert(strings(values) =~= Seq::<Seq<char>>::empty());
    }
}

proof fn lemma_token_injective(key: Seq<char>, x: Seq<char>, y: Seq<char>)
    requires
        override_token(key, x) == override_token(key, y),
    ensures
        x == y,
{
    let n = key.len() + 1;
    reveal_strlit(":");
    assert(override_token(key, x).skip(n as int) =~= x);
    assert(override_token(key, y).skip(n as int) =~= y);
}

/// An override list written to revoke `value` makes the grading see
/// `key:value` as revoked; one written to restore it makes the grading see
/// it as granted again.
pub proof fn law_revision_is_seen_by_grading(key: Seq<char>, l: Seq<Seq<char>>, value: Seq<char>, written: Seq<String>, granted: bool)
    requires
        strings(written) == revise(l, value, granted),
    ensures
        revoked_in(key, written).contains(override_token(key, value)) == !granted,
{
    let negated = "!"@ + value;
    let pred = |x: Seq<char>| keep_entry(x, negated);
    let kept = l.filter(pred);
    reveal_strlit("!");
    if !granted {
        let i = kept.len() as int;
        assert(strings(written).len() == written.len());
        assert(0 <= i < written.len());
        assert(strings(written)[i] == negated);
        assert(strings(written)[i] == written[i]@);
        assert(written[i]@ == negated);
        assert(negated.skip(1) =~= value);
        assert(written[i]@.len() > 0 && written[i]@[0] == '!');
        assert(override_token(key, value) == override_token(key, written[i]@.skip(1)));
        assert(revoked_in(key, written).contains(override_token(key, value)));
    } else {
        if revoked_in(key, written).contains(override_token(key, value)) {
            let j = choose|j: int| 0 <= j < written.len() && (#[trigger] written[j])@.len() > 0
                && written[j]@[0] == '!' && override_token(key, value) == override_token(key, written[j]@.skip(1));
            lemma_token_injective(key, value, written[j]@.skip(1));
            assert(written[j]@ =~= negated);
            assert(strings(written)[j] == written[j]@);
            l.lemma_filter_pred(pred, j);
            assert(false);
        }
    }
}

/// One of the four `[Context]` lists a sandbox is read from.
pub open spec fn is_context_key(key: Seq<char>) -> bool {
    key == "filesystems"@ || key == "shared"@ || key == "sockets"@ || key == "devices"@
}

/// The `[Context]` list a file holds under `key`.
pub open spec fn context_list(f: SandboxFile, key: Seq<char>) -> Seq<String> {
    if key == "filesystems"@ {
        f.filesystems@
    } else if key == "shared"@ {
        f.shared@
    } else if key == "sockets"@ {
        f.sockets@
    } else {
        f.devices@
    }
}

/// `f` with its `[Context]` list under `key` replaced by `list`.
pub open spec fn with_context_list(f: SandboxFile, key: Seq<char>, list: Vec<String>) -> SandboxFile {
    if key == "filesystems"@ {
        SandboxFile { filesystems: list, ..f }
    } else if key == "shared"@ {
        SandboxFile { shared: list, ..f }
    } else if key == "sockets"@ {
        SandboxFile { sockets: list, ..f }
    } else {
        SandboxFile { devices: list, ..f }
    }
}

proof fn lemma_token_keys_differ(k1: Seq<char>, k2: Seq<char>, x: Seq<char>, y: Seq<char>)
    requires
        is_context_key(k1),
        is_context_key(k2),
        k1 != k2,
    ensures
        override_token(k1, x) != override_token(k2, y),
{
    reveal_strlit("filesystems");
    reveal_strlit("shared");
    reveal_strlit("sockets");
    reveal_strlit("devices");
    let a = override_token(k1, x);
    let b = override_token(k2, y);
    assert(a[0] == k1[0] && a[1] == k1[1]);
    assert(b[0] == k2[0] && b[1] == k2[1]);
}

proof fn lemma_other_list_keeps_token(k1: Seq<char>, k2: Seq<char>, values: Seq<String>, value: Seq<char>)
    requires
        is_context_key(k1),
        is_context_key(k2),
        k1 != k2,
    ensures
        !revoked_in(k2, values).contains(override_token(k1, value)),
{
    if revoked_in(k2, values).contains(override_token(k1, value)) {
        let j = choose|j: int| 0 <= j < values.len() && (#[trigger] values[j])@.len() > 0
            && values[j]@[0] == '!' && override_token(k1, value) == override_token(k2, values[j]@.skip(1));
        lemma_token_keys_differ(k1, k2, value, values[j]@.skip(1));
    }
}

proof fn lemma_bus_keeps_token(key: Seq<char>, peers: Seq<BusPeer>, value: Seq<char>)
    requires
        is_context_key(key),
    ensures
        !revoked_bus(peers).contains(override_token(key, value)),
{
    if revoked_bus(peers).contains(override_token(key, value)) {
        let j = choose|j: int| 0 <= j < peers.len() && (#[trigger] peers[j]).policy@ == "none"@
            && override_token(key, value) == "bus:"@ + peers[j].name@;
        reveal_strlit("filesystems");
        reveal_strlit("shared");
        reveal_strlit("sockets");
        reveal_strlit("devices");
        reveal_strlit("bus:");
        assert(override_token(key, value)[0] == key[0]);
        assert(("bus:"@ + peers[j].name@)[0] == 'b');
    }
}

/// Writing an override and reading it back. Once the `[Context]` list an
/// override file holds for `key` is replaced by that list revised to revoke
/// `value` (or to restore it), every permission the grading derives from
/// `key:value` is marked revoked (or granted again), whatever else the
/// override file holds.
pub proof fn law_written_override_is_read_back(
    metadata: SandboxFile,
    overrides: SandboxFile,
    key: Seq<char>,
    value: Seq<char>,
    granted: bool,
    written: Vec<String>,
)
    requires
        is_context_key(key),
        strings(written@) == revise(strings(context_list(overrides, key)), value, granted),
    ensures
        ({
            let ps = parse_view(Some(metadata), Some(with_context_list(overrides, key, written)));
            forall|i: int| 0 <= i < ps.len() && (#[trigger] ps[i]).override_key == Some(override_token(key, value))
                ==> ps[i].revoked == !granted
        }),
{
    let o = with_context_list(overrides, key, written);
    let t = override_token(key, value);
    law_parsed_permissions_are_consistent(metadata, Some(o));
    law_revision_is_seen_by_grading(key, strings(context_list(overrides, key)), value, written@, granted);
    let fs = "filesystems"@;
    let sh = "shared"@;
    let so = "sockets"@;
    let de = "devices"@;
    reveal_strlit("filesystems");
    reveal_strlit("shared");
    reveal_strlit("sockets");
    reveal_strlit("devices");
    assert(fs[0] != sh[0] && fs[0] != so[0] && fs[0] != de[0] && sh[1] != so[1] && sh[0] != de[0]
        && so[0] != de[0]);
    if key != fs {
        lemma_other_list_keeps_token(key, fs, o.filesystems@, value);
    }
    if key != sh {
        lemma_other_list_keeps_token(key, sh, o.shared@, value);
    }
    if key != so {
        lemma_other_list_keeps_token(key, so, o.sockets@, value);
    }
    if key != de {
        lemma_other_list_keeps_token(key, de, o.devices@, value);
    }
    lemma_bus_keeps_token(key, o.session_bus@, value);
    lemma_bus_keeps_token(key, o.system_bus@, value);
    let own = revoked_in(key, written@);
    assert(own.contains(t) == !granted);
    if key == fs {
        assert(o.filesystems@ == written@);
    } else if key == sh {
        assert(o.shared@ == written@);
    } else if key == so {
        assert(o.sockets@ == written@);
    } else {
        assert(o.devices@ == written@);
    }
    assert(revoked_tokens(o).contains(t) == own.contains(t));
}

/// A bus peer an override file sets to `none` is read back as revoked:
/// every permission the grading derives from that peer is marked revoked.
pub proof fn law_bus_policy_none_is_read_back(metadata: SandboxFile, overrides: SandboxFile, name: Seq<char>)
    requires
        exists|j: int| 0 <= j < overrides.session_bus@.len()
            && (#[trigger] overrides.session_bus@[j]).name@ == name
            && overrides.session_bus@[j].policy@ == "none"@,
    ensures
        ({
            let ps = parse_view(Some(metadata), Some(overrides));
            forall|i: int| 0 <= i < ps.len() && (#[trigger] ps[i]).override_key == Some("bus:"@ + name)
                ==> ps[i].revoked
        }),
{
    law_parsed_permissions_are_consistent(metadata, Some(overrides));
    assert(revoked_bus(overrides.session_bus@).contains("bus:"@ + name));
    assert(revoked_tokens(overrides).contains("bus:"@ + name));
}

proof fn lemma_revise_keeps_other_tokens(
    key: Seq<char>,
    current: Seq<String>,
    value: Seq<char>,
    granted: bool,
    written: Seq<String>,
    t: Seq<char>,
)
    requires
        strings(written) == revise(strings(current), value, granted),
        t != override_token(key, value),
    ensures
        revoked_in(key, written).contains(t) == revoked_in(key, current).contains(t),
{
    let negated = "!"@ + value;
    let pred = |x: Seq<char>| keep_entry(x, negated);
    let l = strings(current);
    let kept = l.filter(pred);
    reveal_strlit("!");
    assert(negated.skip(1) =~= value);
    assert(strings(written).len() == written.len());
    if revoked_in(key, written).contains(t) {
        let j = choose|j: int| 0 <= j < written.len() && (#[trigger] written[j])@.len() > 0
            && written[j]@[0] == '!' && t == override_token(key, written[j]@.skip(1));
        assert(strings(written)[j] == written[j]@);
        if j < kept.len() {
            assert(revise(l, value, granted)[j] == kept[j]);
            assert(kept.contains(kept[j]));
            l.lemma_filter_contains_rev(pred, kept[j]);
            let m = choose|m: int| 0 <= m < l.len() && l[m] == kept[j];
            assert(l[m] == current[m]@);
            assert(revoked_in(key, current).contains(t));
        } else {
            assert(!granted);
            assert(revise(l, value, granted)[j] == negated);
            assert(written[j]@ == negated);
        }
    }
    if revoked_in(key, current).contains(t) {
        let m = choose|m: int| 0 <= m < current.len() && (#[trigger] current[m])@.len() > 0
            && current[m]@[0] == '!' && t == override_token(key, current[m]@.skip(1));
        assert(l[m] == current[m]@);
        if current[m]@ == negated {
            assert(false);
        }
        assert(pred(l[m]));
        l.lemma_filter_contains(pred, m);
        let j = choose|j: int| 0 <= j < kept.len() && kept[j] == l[m];
        assert(revise(l, value, granted)[j] == kept[j]);
        assert(strings(written).len() == written.len());
        assert(j < written.len());
        assert(strings(written)[j] == written[j]@);
        assert(written[j]@ == current[m]@);
        assert(revoked_in(key, written).contains(t));
    }
}

/// An override edit touches one permission only. Revising the `[Context]`
/// list for `key` to revoke or restore `value` leaves the state of every
/// other override token as it was; so each permission read back from the
/// edited file that stems from another token is revoked exactly when the
/// file before the edit revoked it. With `law_written_override_is_read_back`
/// this settles any run of edits: each token is as its last edit left it.
pub proof fn law_edit_leaves_other_permissions(
    metadata: SandboxFile,
    overrides: SandboxFile,
    key: Seq<char>,
    value: Seq<char>,
    granted: bool,
    written: Vec<String>,
)
    requires
        is_context_key(key),
        strings(written@) == revise(strings(context_list(overrides, key)), value, granted),
    ensures
        forall|t: Seq<char>| t != override_token(key, value) ==> (#[trigger] revoked_tokens(
            with_context_list(overrides, key, written),
        ).contains(t)) == revoked_tokens(overrides).contains(t),
        ({
            let ps = parse_view(Some(metadata), Some(with_context_list(overrides, key, written)));
            forall|i: int| 0 <= i < ps.len() && (#[trigger] ps[i]).override_key is Some
                && ps[i].override_key->0 != override_token(key, value)
                ==> ps[i].revoked == revoked_tokens(overrides).contains(ps[i].override_key->0)
        }),
{
    let o = with_context_list(overrides, key, written);
    reveal_strlit("filesystems");
    reveal_strlit("shared");
    reveal_strlit("sockets");
    reveal_strlit("devices");
    let (fs, sh, so, de) = ("filesystems"@, "shared"@, "sockets"@, "devices"@);
    assert(fs[0] != sh[0] && fs[0] != so[0] && fs[0] != de[0] && sh[1] != so[1] && sh[0] != de[0]
        && so[0] != de[0]);
    assert forall|t: Seq<char>| t != override_token(key, value) implies (#[trigger] revoked_tokens(o).contains(t))
        == revoked_tokens(overrides).contains(t) by {
        lemma_revise_keeps_other_tokens(key, context_list(overrides, key), value, granted, written@, t);
        if key == fs {
            assert(o.filesystems@ == written@);
            assert(context_list(overrides, key) == overrides.filesystems@);
        } else if key == sh {
            assert(o.shared@ == written@);
            assert(context_list(overrides, key) == overrides.shared@);
        } else if key == so {
            assert(o.sockets@ == written@);
            assert(context_list(overrides, key) == overrides.sockets@);
        } else {
            assert(o.devices@ == written@);
            assert(context_list(overrides, key) == overrides.devices@);
        }
    }
    law_parsed_permissions_are_consistent(metadata, Some(o));
}

/// The `[Context]` grants that defeat the sandbox: every host file, the
/// home folder, an unrestricted session or system bus, the SSH agent, and
/// every device.
pub open spec fn is_escape(key: Seq<char>, bare: Seq<char>) -> bool {
    ||| key == "filesystems"@ && (bare == "host"@ || bare == "home"@)
    ||| key == "sockets"@ && (bare == "session-bus"@ || bare == "system-bus"@ || bare == "ssh-auth"@)
    ||| key == "devices"@ && bare == "all"@
}

/// The sandbox escapes, and only they, are graded `Critical` among the
/// `[Context]` grants, read-only or not and whatever has been revoked.
pub proof fn law_escapes_are_critical(key: Seq<char>, value: Seq<char>, revoked: Set<Seq<char>>)
    ensures
        (classify_view(key, value, revoked).risk == Risk::Critical) == is_escape(key, bare_value(value)),
{
    reveal_strlit("filesystems");
    reveal_strlit("shared");
    reveal_strlit("sockets");
    reveal_strlit("devices");
    reveal_strlit("host");
    reveal_strlit("home");
    reveal_strlit("host-os");
    reveal_strlit("host-etc");
    reveal_strlit("network");
    reveal_strlit("ipc");
    reveal_strlit("x11");
    reveal_strlit("fallback-x11");
    reveal_strlit("wayland");
    reveal_strlit("pulseaudio");
    reveal_strlit("session-bus");
    reveal_strlit("system-bus");
    reveal_strlit("ssh-auth");
    reveal_strlit("cups");
    reveal_strlit("all");
    reveal_strlit("dri");
    let (fs, sh, so, de) = ("filesystems"@, "shared"@, "sockets"@, "devices"@);
    assert(fs[0] != sh[0] && fs[0] != so[0] && fs[0] != de[0] && sh[1] != so[1] && sh[0] != de[0]
        && so[0] != de[0]);
    assert("host"@[2] != "home"@[2]);
    assert("all"@[0] != "dri"@[0] && "all"@[0] != "ipc"@[0] && "all"@[0] != "x11"@[0]);
    assert("session-bus"@.len() != "system-bus"@.len() && "ssh-auth"@[1] != "system-bus"@[1]
        && "ssh-auth"@.len() != "session-bus"@.len());
}

/// The sandbox escapes are graded as what they are, whatever has been
/// revoked: all host files, the home folder, the session bus, the system
/// bus, the SSH agent and every device each get their own kind, all
/// `Critical`.
pub proof fn law_escape_kinds(value: Seq<char>, revoked: Set<Seq<char>>)
    ensures
        bare_value(value) == "host"@ ==> classify_view("filesystems"@, value, revoked).kind == KindView::HostFilesystem,
        bare_value(value) == "home"@ ==> classify_view("filesystems"@, value, revoked).kind == KindView::HomeFilesystem,
        bare_value(value) == "session-bus"@ ==> classify_view("sockets"@, value, revoked).kind == KindView::SessionBus,
        bare_value(value) == "system-bus"@ ==> classify_view("sockets"@, value, revoked).kind == KindView::SystemBus,
        bare_value(value) == "ssh-auth"@ ==> classify_view("sockets"@, value, revoked).kind == KindView::Other("ssh-auth"@),
        bare_value(value) == "all"@ ==> classify_view("devices"@, value, revoked).kind == KindView::AllDevices,
{
    reveal_strlit("filesystems");
    reveal_strlit("shared");
    reveal_strlit("sockets");
    reveal_strlit("devices");
    reveal_strlit("host");
    reveal_strlit("home");
    reveal_strlit("host-os");
    reveal_strlit("host-etc");
    reveal_strlit("network");
    reveal_strlit("ipc");
    reveal_strlit("x11");
    reveal_strlit("fallback-x11");
    reveal_strlit("wayland");
    reveal_strlit("pulseaudio");
    reveal_strlit("session-bus");
    reveal_strlit("system-bus");
    reveal_strlit("ssh-auth");
    reveal_strlit("cups");
    reveal_strlit("all");
    reveal_strlit("dri");
    let (fs, sh, so, de) = ("filesystems"@, "shared"@, "sockets"@, "devices"@);
    assert(fs[0] != sh[0] && fs[0] != so[0] && fs[0] != de[0] && sh[1] != so[1] && sh[0] != de[0]
        && so[0] != de[0]);
    assert("host"@[2] != "home"@[2]);
    assert("all"@[0] != "dri"@[0] && "all"@[0] != "ipc"@[0] && "all"@[0] != "x11"@[0]);
    assert("session-bus"@.len() != "system-bus"@.len() && "ssh-auth"@[1] != "system-bus"@[1]
        && "ssh-auth"@.len() != "session-bus"@.len());
}

/// Among bus peers, control of Flatpak itself and the keyring are graded
/// `Critical`, and nothing else, whatever has been revoked.
pub proof fn law_bus_escapes_are_critical(name: Seq<char>, revoked: Set<Seq<char>>)
    ensures
        (classify_bus_view(name, revoked) matches Some(p) && p.risk == Risk::Critical)
            == (starts_with(name, "org.freedesktop.Flatpak"@) || name == "org.freedesktop.secrets"@),
        starts_with(name, "org.freedesktop.Flatpak"@) ==> (classify_bus_view(name, revoked) matches Some(p)
            && p.kind == KindView::FlatpakEscape),
        name == "org.freedesktop.secrets"@ ==> (classify_bus_view(name, revoked) matches Some(p)
            && p.kind == KindView::Secrets),
{
    reveal_strlit("org.freedesktop.Flatpak");
    reveal_strlit("org.freedesktop.secrets");
    reveal_strlit("org.freedesktop.impl.portal");
    if name == "org.freedesktop.secrets"@ {
        assert(name[16] != "org.freedesktop.Flatpak"@[16]);
        assert(!starts_with(name, "org.freedesktop.Flatpak"@));
    }
}

proof fn lemma_join_semicolons(items: Seq<Seq<char>>)
    ensures
        join_semicolons(items) == join(items, ";"@),
    decreases items.len(),
{
    if items.len() > 1 {
        lemma_join_semicolons(items.drop_last());
    }
}

/// Whether no item holds the `;` that separates a Flatpak list.
pub open spec fn free_of_semicolons(items: Seq<Seq<char>>) -> bool {
    forall|i: int| 0 <= i < items.len() ==> !(#[trigger] items[i]).contains(';')
}

/// A list written in Flatpak's form reads back as the same list: splitting
/// it at each `;` gives the items, then the empty piece after the closing
/// `;`. Holds for any non-empty list whose items hold no `;`.
pub proof fn law_written_list_reads_back(items: Seq<Seq<char>>)
    requires
        items.len() > 0,
        free_of_semicolons(items),
    ensures
        split(join_semicolons(items) + ";"@, ';') == items.push(Seq::<char>::empty()),
        split(join_semicolons(items) + ";"@, ';').drop_last() == items,
{
    lemma_join_semicolons(items);
    crate::text::lemma_split_join(items);
    reveal_strlit(";");
    let w = join_semicolons(items) + ";"@;
    assert(w.drop_last() =~= join_semicolons(items));
    assert(w.last() == ';');
    assert(items.push(Seq::<char>::empty()).drop_last() =~= items);
}

} // verus!
