//! The Flatpak backend's decisions, on what libflatpak reports.
//!
//! libflatpak's objects cannot leave the thread that owns them, so what the
//! logic reads of an installed or remote ref is copied out into the plain
//! records below; the decisions made on them live here.

use vstd::prelude::*;
use crate::desktop::opt_view;
use crate::error::Error;
use crate::permissions::{opt_file, parse, parse_view, revoked_tokens, SandboxFile};
use crate::plan::{in_plan_order, item_from_ref, item_views, order_plan_items, plan_item_from_ref, InstallPlan, PlanItem};
use crate::text::{chars_of, contains, contains_lit, lowercase, to_lowercase};
use crate::types::{App, AppRef, BackendId, InstalledApp, Phase, Update, origin_view};

verus! {

/// What a transaction should do; resolved to concrete refs by the backend.
#[derive(Debug, Clone)]
pub enum Operation {
    Install(AppRef),
    Remove(AppRef),
    /// `None` updates everything Flatpak owns.
    Update(Option<AppRef>),
}

/// The kind of one operation inside a resolved transaction.
#[derive(Debug, Clone, Copy, PartialEq, Eq, Structural)]
pub enum OperationType {
    Install,
    Update,
    InstallBundle,
    Uninstall,
}

/// The phase an operation of this kind is shown in while it runs.
pub fn operation_phase(kind: OperationType) -> (p: Phase)
    ensures
        p == (if kind == OperationType::Uninstall {
            Phase::Removing
        } else {
            Phase::Downloading
        }),
{
    match kind {
        OperationType::Uninstall => Phase::Removing,
        _ => Phase::Downloading,
    }
}

/// What an installed ref says of itself.
#[derive(Debug, Clone)]
pub struct InstalledRefInfo {
    /// Whether it is an app rather than a runtime or extension.
    pub is_app: bool,
    /// The app id, where the ref has one.
    pub name: Option<String>,
    /// The full `kind/id/arch/branch` ref, where it can be formatted.
    pub full_ref: Option<String>,
    pub origin: Option<String>,
    pub appdata_name: Option<String>,
    pub appdata_summary: Option<String>,
    pub appdata_version: Option<String>,
    pub appdata_license: Option<String>,
    pub installed_size: u64,
    /// Whether the app's metadata could be read at all.
    pub metadata_loaded: bool,
    /// The metadata, read as a key file; `None` when it does not parse.
    pub metadata: Option<SandboxFile>,
    /// The user's overrides for this app, if any could be read.
    pub overrides: Option<SandboxFile>,
}

/// What an installed ref amounts to as an app: listed under its id, named
/// by its own metadata where that has a name, and graded from its metadata
/// where that could be read.
pub open spec fn ref_app_is(app: App, info: InstalledRefInfo) -> bool {
    let id = info.name.unwrap()@;
    &&& app.app_ref.backend == BackendId::Flatpak
    &&& app.app_ref.id@ == id
    &&& origin_view(app.app_ref.origin) == opt_view(info.origin)
    &&& app.name@ == (match info.appdata_name {
        Some(n) => n@,
        None => id,
    })
    &&& opt_view(app.summary) == opt_view(info.appdata_summary)
    &&& app.description is None
    &&& app.developer is None
    &&& opt_view(app.license) == opt_view(info.appdata_license)
    &&& app.categories@.len() == 0
    &&& app.icon is None
    &&& app.screenshots@.len() == 0
    &&& app.releases@.len() == 0
    &&& opt_view(app.version) == opt_view(info.appdata_version)
    &&& app.download_size is None
    &&& app.installed_size == Some(info.installed_size)
    &&& (app.sandbox is Some <==> info.metadata_loaded)
    &&& (app.sandbox matches Some(s) ==> s@ == parse_view(info.metadata, info.overrides))
}

/// The installed app an installed ref stands for; an update, when there is
/// one, has no known target version yet.
pub open spec fn installed_app_is(ia: InstalledApp, info: InstalledRefInfo, has_update: bool) -> bool {
    &&& ref_app_is(ia.app, info)
    &&& opt_view(ia.installed_version) == opt_view(info.appdata_version)
    &&& (ia.update is Some <==> has_update)
    &&& (ia.update matches Some(u) ==> u.version@.len() == 0 && u.download_size is None
        && u.releases@.len() == 0)
}

/// Whether an installed ref carries the app id `id`.
pub open spec fn named(info: InstalledRefInfo, id: Seq<char>) -> bool {
    opt_view(info.name) == Some(id)
}

/// A copy of an optional string.
fn copy_opt(o: &Option<String>) -> (r: Option<String>)
    ensures
        opt_view(r) == opt_view(*o),
{
    match o {
        Some(s) => Some(s.clone()),
        None => None,
    }
}

/// The installed app an installed ref stands for; nothing when the ref has
/// no app id.
pub fn to_installed_app(info: &InstalledRefInfo, has_update: bool) -> (r: Option<InstalledApp>)
    ensures
        r is Some <==> info.name is Some,
        r matches Some(ia) ==> installed_app_is(ia, *info, has_update),
{
    let id = match &info.name {
        Some(n) => n.clone(),
        None => {
            return None;
        },
    };
    let name = match &info.appdata_name {
        Some(n) => n.clone(),
        None => id.clone(),
    };
    let base = AppRef::new(BackendId::Flatpak, id);
    let app_ref = match &info.origin {
        Some(o) => base.with_origin(o.clone()),
        None => base,
    };
    let sandbox = if info.metadata_loaded {
        let m = info.metadata.as_ref();
        let o = info.overrides.as_ref();
        assert(opt_file(m) == info.metadata);
        assert(opt_file(o) == info.overrides);
        Some(parse(m, o))
    } else {
        None
    };
    let app = App {
        app_ref,
        name,
        summary: copy_opt(&info.appdata_summary),
        description: None,
        developer: None,
        license: copy_opt(&info.appdata_license),
        categories: Vec::new(),
        icon: None,
        screenshots: Vec::new(),
        releases: Vec::new(),
        version: copy_opt(&info.appdata_version),
        download_size: None,
        installed_size: Some(info.installed_size),
        sandbox,
    };
    // The target version of an update needs a network round trip per app;
    // the list only needs to know that an update exists.
    let update = if has_update {
        Some(Update { version: String::new(), download_size: None, releases: Vec::new() })
    } else {
        None
    };
    Some(InstalledApp { app, installed_version: copy_opt(&info.appdata_version), update })
}

/// The installed refs that are apps with an id.
pub open spec fn listed_refs(refs: Seq<InstalledRefInfo>) -> Seq<InstalledRefInfo> {
    refs.filter(|r: InstalledRefInfo| r.is_app && r.name is Some)
}

/// The installed apps among one installation's refs, in order. Runtimes are
/// dropped: users do not install those themselves.
pub fn installed_apps(refs: &Vec<InstalledRefInfo>, updates_only: bool) -> (r: Vec<InstalledApp>)
    ensures
        r@.len() == listed_refs(refs@).len(),
        forall|i: int|
            0 <= i < r@.len() ==> installed_app_is(
                #[trigger] r@[i],
                listed_refs(refs@)[i],
                updates_only,
            ),
{
    let mut out: Vec<InstalledApp> = Vec::new();
    let mut i: usize = 0;
    proof {
        assert(refs@.take(0).filter(|r: InstalledRefInfo| r.is_app && r.name is Some) =~= Seq::<
            InstalledRefInfo,
        >::empty()) by {
            reveal(Seq::filter);
        }
    }
    while i < refs.len()
        invariant
            i <= refs@.len(),
            out@.len() == listed_refs(refs@.take(i as int)).len(),
            forall|k: int|
                0 <= k < out@.len() ==> installed_app_is(
                    #[trigger] out@[k],
                    listed_refs(refs@.take(i as int))[k],
                    updates_only,
                ),
        decreases refs@.len() - i,
    {
        proof {
            assert(refs@.take(i + 1 as int).drop_last() =~= refs@.take(i as int));
            reveal(Seq::filter);
        }
        let ghost before = out@;
        let ghost prev = listed_refs(refs@.take(i as int));
        if refs[i].is_app {
            match to_installed_app(&refs[i], updates_only) {
                Some(ia) => {
                    out.push(ia);
                    proof {
                        assert(listed_refs(refs@.take(i + 1 as int)) == prev.push(refs@[i as int]));
                        assert forall|k: int| 0 <= k < out@.len() implies installed_app_is(
                            #[trigger] out@[k],
                            listed_refs(refs@.take(i + 1 as int))[k],
                            updates_only,
                        ) by {
                            if k < before.len() {
                                assert(out@[k] == before[k]);
                            }
                        }
                    }
                },
                None => {},
            }
        }
        i = i + 1;
    }
    assert(refs@.take(i as int) =~= refs@);
    out
}

/// The app an installation lists under `id`: its first ref with that id.
pub fn find_app(refs: &Vec<InstalledRefInfo>, id: &str) -> (r: Option<App>)
    ensures
        match r {
            Some(app) => exists|k: int|
                0 <= k < refs@.len() && named(#[trigger] refs@[k], id@) && (forall|m: int|
                    0 <= m < k ==> !named(#[trigger] refs@[m], id@)) && ref_app_is(app, refs@[k]),
            None => forall|k: int| 0 <= k < refs@.len() ==> !named(#[trigger] refs@[k], id@),
        },
{
    let mut k: usize = 0;
    while k < refs.len()
        invariant
            k <= refs@.len(),
            forall|m: int| 0 <= m < k ==> !named(#[trigger] refs@[m], id@),
        decreases refs@.len() - k,
    {
        let matches = match &refs[k].name {
            Some(n) => equal_text(n.as_str(), id),
            None => false,
        };
        if matches {
            let found = to_installed_app(&refs[k], false);
            match found {
                Some(ia) => {
                    return Some(ia.app);
                },
                None => {
                    return None;
                },
            }
        }
        k = k + 1;
    }
    None
}

/// Whether two strings hold the same characters.
fn equal_text(a: &str, b: &str) -> (r: bool)
    ensures
        r == (a@ == b@),
{
    let x = chars_of(a);
    crate::text::eq_lit(&x, b)
}

/// What a remote ref says of itself.
#[derive(Debug, Clone)]
pub struct RemoteRefInfo {
    pub is_app: bool,
    pub name: Option<String>,
    pub branch: Option<String>,
    /// The full ref, where it can be formatted.
    pub full_ref: Option<String>,
}

/// The ref to install for `app_id` from a remote's refs, scanning from the
/// first: the `stable` branch when the remote offers one, else the first
/// matching ref. A matching ref that cannot be formatted ends the search
/// with nothing.
pub open spec fn pick_remote(refs: Seq<RemoteRefInfo>, app_id: Seq<char>, fallback: Option<
    Seq<char>,
>) -> Option<Seq<char>>
    decreases refs.len(),
{
    if refs.len() == 0 {
        fallback
    } else {
        let r = refs[0];
        if !r.is_app || opt_view(r.name) != Some(app_id) {
            pick_remote(refs.drop_first(), app_id, fallback)
        } else {
            match r.full_ref {
                None => None,
                Some(full) => if opt_view(r.branch) == Some("stable"@) {
                    Some(full@)
                } else {
                    pick_remote(
                        refs.drop_first(),
                        app_id,
                        if fallback is Some {
                            fallback
                        } else {
                            Some(full@)
                        },
                    )
                },
            }
        }
    }
}

/// Find an installable ref for `app_id` among a remote's refs.
pub fn pick_remote_ref(refs: &Vec<RemoteRefInfo>, app_id: &str) -> (r: Option<String>)
    ensures
        opt_view(r) == pick_remote(refs@, app_id@, None),
{
    let mut fallback: Option<String> = None;
    let mut i: usize = 0;
    assert(refs@.skip(0) =~= refs@);
    while i < refs.len()
        invariant
            i <= refs@.len(),
            pick_remote(refs@, app_id@, None) == pick_remote(
                refs@.skip(i as int),
                app_id@,
                opt_view(fallback),
            ),
        decreases refs@.len() - i,
    {
        let r = &refs[i];
        proof {
            assert(refs@.skip(i as int)[0] == refs@[i as int]);
            assert(refs@.skip(i as int).drop_first() =~= refs@.skip(i + 1));
        }
        let named = match &r.name {
            Some(n) => equal_text(n.as_str(), app_id),
            None => false,
        };
        if r.is_app && named {
            match &r.full_ref {
                None => {
                    return None;
                },
                Some(full) => {
                    let stable = match &r.branch {
                        Some(b) => equal_text(b.as_str(), "stable"),
                        None => false,
                    };
                    if stable {
                        return Some(full.clone());
                    }
                    if fallback.is_none() {
                        fallback = Some(full.clone());
                    }
                },
            }
        }
        i = i + 1;
    }
    assert(refs@.skip(i as int) =~= Seq::<RemoteRefInfo>::empty());
    fallback
}

/// An installed ref's id and full ref.
#[derive(Debug, Clone)]
pub struct InstalledRefName {
    pub name: Option<String>,
    pub full_ref: Option<String>,
}

/// Whether an installed ref is `id`'s and can be named in a transaction.
pub open spec fn names_ref(r: InstalledRefName, id: Seq<char>) -> bool {
    opt_view(r.name) == Some(id) && r.full_ref is Some
}

/// The first position, installation by installation and ref by ref, of a
/// ref for `id` that can be named in a transaction.
pub open spec fn first_ref_at(lists: Seq<Seq<InstalledRefName>>, id: Seq<char>, i: int, j: int) -> bool {
    &&& 0 <= i < lists.len()
    &&& 0 <= j < lists[i].len()
    &&& names_ref(lists[i][j], id)
    &&& forall|a: int, b: int|
        0 <= a < lists.len() && 0 <= b < lists[a].len() && (a < i || (a == i && b < j))
            ==> !names_ref(#[trigger] lists[a][b], id)
}

/// Whether an installed ref's full ref is `full`.
pub open spec fn full_ref_is(r: InstalledRefName, full: Seq<char>) -> bool {
    opt_view(r.full_ref) == Some(full)
}

/// Each installation's refs, as sequences.
pub open spec fn ref_lists(lists: Seq<Vec<InstalledRefName>>) -> Seq<Seq<InstalledRefName>> {
    lists.map_values(|l: Vec<InstalledRefName>| l@)
}

/// Resolve an app id to the installation holding it and the full ref that
/// transactions expect (`app/org.gnome.Calculator/x86_64/stable`).
/// `lists` holds each installation's installed apps, in installation order;
/// an installation that could not be listed holds none.
pub fn find_installed_ref(lists: &Vec<Vec<InstalledRefName>>, id: &str) -> (r: Option<
    (usize, String),
>)
    ensures
        r matches Some(p) ==> exists|j: int|
            #[trigger] first_ref_at(ref_lists(lists@), id@, p.0 as int, j) && full_ref_is(
                ref_lists(lists@)[p.0 as int][j],
                p.1@,
            ),
        r is None ==> forall|a: int, b: int|
            0 <= a < lists@.len() && 0 <= b < lists@[a]@.len() ==> !names_ref(
                #[trigger] lists@[a]@[b],
                id@,
            ),
{
    let ghost ls = ref_lists(lists@);
    let mut i: usize = 0;
    while i < lists.len()
        invariant
            ls == ref_lists(lists@),
            i <= lists@.len(),
            forall|a: int, b: int|
                0 <= a < i && 0 <= b < lists@[a]@.len() ==> !names_ref(
                    #[trigger] lists@[a]@[b],
                    id@,
                ),
        decreases lists@.len() - i,
    {
        let refs = &lists[i];
        let mut j: usize = 0;
        while j < refs.len()
            invariant
                ls == ref_lists(lists@),
                i < lists@.len(),
                *refs == lists@[i as int],
                j <= refs@.len(),
                forall|a: int, b: int|
                    0 <= a < i && 0 <= b < lists@[a]@.len() ==> !names_ref(
                        #[trigger] lists@[a]@[b],
                        id@,
                    ),
                forall|b: int| 0 <= b < j ==> !names_ref(#[trigger] refs@[b], id@),
            decreases refs@.len() - j,
        {
            let named = match &refs[j].name {
                Some(n) => equal_text(n.as_str(), id),
                None => false,
            };
            if named {
                match &refs[j].full_ref {
                    Some(full) => {
                        proof {
                            assert(ls[i as int] == refs@);
                            assert forall|a: int, b: int|
                                0 <= a < ls.len() && 0 <= b < ls[a].len() && (a < i || (a == i
                                    && b < j)) implies !names_ref(#[trigger] ls[a][b], id@) by {
                                assert(ls[a] == lists@[a]@);
                            }
                            assert(first_ref_at(ls, id@, i as int, j as int));
                            assert(opt_view(lists@[i as int]@[j as int].full_ref) == Some(full@));
                        }
                        let f = full.clone();
                        assert(f@ == full@);
                        let res = Some((i, f));
                        assert(full_ref_is(ref_lists(lists@)[i as int][j as int], res.unwrap().1@));
                        assert(first_ref_at(ref_lists(lists@), id@, res.unwrap().0 as int, j as int));
                        return res;
                    },
                    None => {},
                }
            }
            j = j + 1;
        }
        i = i + 1;
    }
    None
}

/// The plan a resolved install amounts to, from each operation's ref and
/// sizes: nothing when there is no operation, otherwise the items in plan
/// order, from `remote`.
pub fn plan_from_operations(operations: &Vec<(String, u64, u64)>, remote: String) -> (r: Option<
    InstallPlan,
>)
    ensures
        r is Some <==> operations@.len() > 0,
        r matches Some(plan) ==> {
            &&& plan.format@ == "Flatpak"@
            &&& opt_view(plan.source) == Some(remote@)
            &&& item_views(plan.items@) == in_plan_order(
                operations@.map_values(
                    |op: (String, u64, u64)| item_from_ref(op.0@, op.1, op.2),
                ),
            )
        },
{
    if operations.len() == 0 {
        return None;
    }
    let ghost wanted = operations@.map_values(
        |op: (String, u64, u64)| item_from_ref(op.0@, op.1, op.2),
    );
    let mut items: Vec<PlanItem> = Vec::new();
    let mut i: usize = 0;
    assert(item_views(items@) =~= wanted.take(0));
    while i < operations.len()
        invariant
            wanted == operations@.map_values(
                |op: (String, u64, u64)| item_from_ref(op.0@, op.1, op.2),
            ),
            i <= operations@.len(),
            item_views(items@) == wanted.take(i as int),
        decreases operations@.len() - i,
    {
        let op = &operations[i];
        let item = plan_item_from_ref(op.0.as_str(), op.1, op.2);
        let ghost before = items@;
        items.push(item);
        assert(item_views(items@) =~= item_views(before).push(item@));
        assert(wanted.take(i + 1 as int) =~= wanted.take(i as int).push(wanted[i as int]));
        i = i + 1;
    }
    assert(wanted.take(i as int) =~= wanted);
    let ordered = order_plan_items(items);
    Some(InstallPlan { format: "Flatpak", source: Some(remote), items: ordered })
}

/// The remote an app is fetched from: its origin, or Flathub.
pub fn remote_for(app_ref: &AppRef) -> (r: String)
    ensures
        r@ == (match origin_view(app_ref.origin) {
            Some(o) => o,
            None => "flathub"@,
        }),
{
    match &app_ref.origin {
        Some(o) => o.clone(),
        None => "flathub".to_owned(),
    }
}

/// The error for a machine with no Flatpak installation at all.
pub fn no_installation() -> (e: Error)
    ensures
        e matches Error::BackendUnavailable { backend, reason } && backend@ == "flatpak"@
            && reason@ == "no flatpak installation"@,
{
    Error::BackendUnavailable { backend: "flatpak", reason: "no flatpak installation".to_owned() }
}

/// How a libflatpak failure message reads, lower-cased: the kinds worth
/// telling apart, in the order they are checked.
pub open spec fn message_error_kind(lower: Seq<char>) -> int {
    if contains(lower, "not authorized"@) || contains(lower, "permission denied"@) {
        0
    } else if contains(lower, "no space"@) || contains(lower, "disk full"@) {
        1
    } else if contains(lower, "network"@) || contains(lower, "resolve"@) || contains(
        lower,
        "connection"@,
    ) || contains(lower, "timed out"@) {
        2
    } else if contains(lower, "cancel"@) {
        3
    } else {
        1
    }
}

/// Whether `e` is what a failure reading `message`, lower-cased as
/// `lower`, maps to.
pub open spec fn classified_as(e: Error, message: Seq<char>, lower: Seq<char>) -> bool {
    let kind = message_error_kind(lower);
    if kind == 0 {
        e is NotAuthorized
    } else if kind == 2 {
        e matches Error::Network(m) && m@ == message
    } else if kind == 3 {
        e is Cancelled
    } else {
        e matches Error::Backend(m) && m@ == message
    }
}

/// Map a libflatpak failure onto the library's errors, given its message
/// and that message lower-cased. libflatpak reports almost everything as a
/// generic error with a human string, so the message decides.
pub fn classify_message(message: String, lower: &str) -> (e: Error)
    ensures
        classified_as(e, message@, lower@),
{
    let l = chars_of(lower);
    if contains_lit(&l, "not authorized") || contains_lit(&l, "permission denied") {
        Error::NotAuthorized
    } else if contains_lit(&l, "no space") || contains_lit(&l, "disk full") {
        Error::Backend(message)
    } else if contains_lit(&l, "network") || contains_lit(&l, "resolve") || contains_lit(
        &l,
        "connection",
    ) || contains_lit(&l, "timed out") {
        Error::Network(message)
    } else if contains_lit(&l, "cancel") {
        Error::Cancelled
    } else {
        Error::Backend(message)
    }
}

/// Map a libflatpak failure message onto the library's errors.
pub fn to_error(message: String) -> (e: Error)
    ensures
        classified_as(e, message@, lowercase(message@)),
{
    let lower = to_lowercase(message.as_str());
    classify_message(message, lower.as_str())
}

/// The error a transaction run ends with: a cancel the user asked for is
/// reported as such, anything else by its message.
pub fn run_error(cancelled: bool, message: String) -> (e: Error)
    ensures
        cancelled ==> e is Cancelled,
        !cancelled ==> classified_as(e, message@, lowercase(message@)),
{
    if cancelled {
        Error::Cancelled
    } else {
        to_error(message)
    }
}

/// An installed app's grade honours the user's overrides: each switchable
/// permission in its sandbox is marked revoked exactly when the ref's
/// overrides revoke its token, so with no overrides nothing is revoked.
pub proof fn law_installed_grade_honours_overrides(ia: InstalledApp, info: InstalledRefInfo, has_update: bool)
    requires
        installed_app_is(ia, info, has_update),
    ensures
        ia.app.sandbox matches Some(s) ==> forall|i: int| 0 <= i < s@.len() && (#[trigger] s@[i]).override_key is Some
            ==> s@[i].revoked == (info.overrides matches Some(o) && revoked_tokens(o).contains(
            s@[i].override_key->0,
        )),
{
    if let Some(m) = info.metadata {
        crate::permissions::law_parsed_permissions_are_consistent(m, info.overrides);
    }
}

} // verus!
