//! The distro package backend's decisions, as PackageKit reports them.
//!
//! Unlike Flatpak, these packages are **not sandboxed**: the interface shows
//! "Not sandboxed" for them rather than an absence of information. This
//! module turns PackageKit's rows and signals into the library's types; the
//! D-Bus conversation itself happens outside.

use vstd::prelude::*;
use crate::desktop::{keyed_views, opt_view, Entry, EntryView};
use crate::error::Error;
use crate::plan::{InstallPlan, PlanItem, PlanItemView, item_views};
use crate::text::{
    chars_of, decimal, push_decimal, push_str, split, split_chars, split_once, split_once_chars,
    string_of,
};
use crate::types::{App, AppRef, BackendId, IconSource, InstalledApp, Phase, Update, origin_view};

verus! {

/// `ExitEnum` value PackageKit reports for a transaction that succeeded.
pub const EXIT_SUCCESS: u32 = 1;

/// `PkErrorEnum` value for a declined or failed authorisation.
pub const ERROR_NOT_AUTHORIZED: u32 = 34;

/// `PkErrorEnum` value for a missing network.
pub const ERROR_NO_NETWORK: u32 = 10;

/// `PkStatusEnum` values an item can report while it is worked on.
pub const STATUS_REMOVING: u32 = 7;
pub const STATUS_INSTALLING: u32 = 8;
pub const STATUS_UPDATING: u32 = 9;
pub const STATUS_DOWNLOADING: u32 = 10;

/// The distro package backend.
pub struct PackageKitBackend {
    _private: (),
}

impl PackageKitBackend {
    pub fn new() -> Self {
        PackageKitBackend { _private: () }
    }

    /// Which backend this is.
    pub fn id(&self) -> (b: BackendId)
        ensures
            b == BackendId::PackageKit,
    {
        BackendId::PackageKit
    }
}

impl Default for PackageKitBackend {
    fn default() -> Self {
        PackageKitBackend::new()
    }
}

/// A package row returned by a transaction.
#[derive(Debug, Clone)]
pub struct PackageRow {
    pub info: u32,
    pub package_id: String,
    pub summary: String,
}

/// Field `i` of a `name;version;arch;data` package id; missing fields are
/// empty.
pub open spec fn id_part(id: Seq<char>, i: int) -> Seq<char> {
    if i < split(id, ';').len() {
        split(id, ';')[i]
    } else {
        Seq::empty()
    }
}

proof fn lemma_split_nonempty(s: Seq<char>, c: char)
    ensures
        split(s, c).len() >= 1,
    decreases s.len(),
{
    if s.len() > 0 {
        lemma_split_nonempty(s.drop_last(), c);
    }
}

/// The `name`, `version`, `arch` and `data` fields of a package id.
pub fn split_package_id(id: &str) -> (r: (String, String, String, String))
    ensures
        r.0@ == id_part(id@, 0),
        r.1@ == id_part(id@, 1),
        r.2@ == id_part(id@, 2),
        r.3@ == id_part(id@, 3),
{
    let v = chars_of(id);
    let parts = split_chars(&v, ';');
    proof {
        lemma_split_nonempty(id@, ';');
    }
    let name = string_of(&parts[0]);
    let version = if parts.len() > 1 { string_of(&parts[1]) } else { String::new() };
    let arch = if parts.len() > 2 { string_of(&parts[2]) } else { String::new() };
    let data = if parts.len() > 3 { string_of(&parts[3]) } else { String::new() };
    (name, version, arch, data)
}

/// The entry listed under `name`, the first one if several are.
pub open spec fn lookup_entry(apps: Seq<(Seq<char>, EntryView)>, name: Seq<char>) -> Option<
    EntryView,
>
    decreases apps.len(),
{
    if apps.len() == 0 {
        None
    } else if apps[0].0 == name {
        Some(apps[0].1)
    } else {
        lookup_entry(apps.drop_first(), name)
    }
}

/// Whether a row stands for an application worth listing: it has a name,
/// and, where desktop entries are known at all, one of them is its own.
pub open spec fn lists_row(id: Seq<char>, apps: Seq<(Seq<char>, EntryView)>) -> bool {
    id_part(id, 0).len() > 0 && (apps.len() == 0 || lookup_entry(apps, id_part(id, 0)) is Some)
}

/// The repository named in a row's data field (`installed:repo`), if any.
pub open spec fn origin_of(data: Seq<char>) -> Option<Seq<char>> {
    match split_once(data, ':') {
        Some((_, repo)) => if repo.len() > 0 {
            Some(repo)
        } else {
            None
        },
        None => None,
    }
}

/// `Some(s)` unless `s` is empty.
pub open spec fn non_empty(s: Seq<char>) -> Option<Seq<char>> {
    if s.len() > 0 {
        Some(s)
    } else {
        None
    }
}

/// Whether `icon` is the themed icon `expected` names, or both are absent.
pub open spec fn themed_icon_is(icon: Option<IconSource>, expected: Option<Seq<char>>) -> bool {
    match (icon, expected) {
        (Some(IconSource::Themed(s)), Some(e)) => s@ == e,
        (None, None) => true,
        _ => false,
    }
}

/// The icon an entry names, if any.
pub open spec fn entry_icon(e: Option<EntryView>) -> Option<Seq<char>> {
    match e {
        Some(e) => e.icon,
        None => None,
    }
}

/// What a listed row says of its app.
pub open spec fn row_app_is(
    app: App,
    id: Seq<char>,
    summary: Seq<char>,
    apps: Seq<(Seq<char>, EntryView)>,
) -> bool {
    let name = id_part(id, 0);
    let version = id_part(id, 1);
    let entry = lookup_entry(apps, name);
    &&& app.app_ref.backend == BackendId::PackageKit
    &&& app.app_ref.id@ == name
    &&& origin_view(app.app_ref.origin) == origin_of(id_part(id, 3))
    &&& app.name@ == (match entry {
        Some(e) => e.name,
        None => name,
    })
    &&& opt_view(app.summary) == non_empty(summary)
    &&& app.description is None
    &&& app.developer is None
    &&& app.license is None
    &&& app.categories@.len() == 0
    &&& themed_icon_is(app.icon, entry_icon(entry))
    &&& app.screenshots@.len() == 0
    &&& app.releases@.len() == 0
    &&& opt_view(app.version) == non_empty(version)
    &&& app.download_size is None
    &&& app.installed_size is None
    &&& app.sandbox is None
}

/// The entry listed under `name`.
fn find_entry(apps: &Vec<(String, Entry)>, name: &String) -> (r: Option<usize>)
    ensures
        match r {
            Some(k) => k < apps@.len() && lookup_entry(keyed_views(apps@), name@) == Some(
                apps@[k as int].1@,
            ),
            None => lookup_entry(keyed_views(apps@), name@) is None,
        },
{
    let ghost ks = keyed_views(apps@);
    let mut k: usize = 0;
    assert(ks.skip(0) =~= ks);
    while k < apps.len()
        invariant
            ks == keyed_views(apps@),
            k <= apps@.len(),
            lookup_entry(ks, name@) == lookup_entry(ks.skip(k as int), name@),
        decreases apps@.len() - k,
    {
        proof {
            assert(ks.skip(k as int)[0] == ks[k as int]);
            assert(ks.skip(k as int).drop_first() =~= ks.skip(k + 1));
        }
        if apps[k].0 == *name {
            return Some(k);
        }
        k = k + 1;
    }
    assert(ks.skip(k as int) =~= Seq::<(Seq<char>, EntryView)>::empty());
    None
}

/// What an installed app listed from `row` is: the app the row names, with
/// the desktop entry's name, icon and summary; the row's version as the
/// installed one; and, when an update is pending, the same version as the
/// update, with nothing known of its size or releases.
pub open spec fn installed_is(
    ia: InstalledApp,
    row: PackageRow,
    has_update: bool,
    apps: Seq<(Seq<char>, EntryView)>,
) -> bool {
    &&& row_app_is(ia.app, row.package_id@, row.summary@, apps)
    &&& opt_view(ia.installed_version) == non_empty(id_part(row.package_id@, 1))
    &&& (ia.update is Some <==> has_update)
    &&& (ia.update matches Some(u) ==> u.version@ == id_part(row.package_id@, 1)
        && u.download_size is None && u.releases@.len() == 0)
}

/// The installed app a package row stands for, or `None` when it is not an
/// application a user would recognise. `applications` pairs package names
/// with their desktop entries; when it is empty nothing is filtered.
pub fn to_installed(row: &PackageRow, has_update: bool, applications: &Vec<(String, Entry)>) -> (r:
    Option<InstalledApp>)
    ensures
        r is Some <==> lists_row(row.package_id@, keyed_views(applications@)),
        r matches Some(ia) ==> installed_is(ia, *row, has_update, keyed_views(applications@)),
{
    let (name, version, _arch, data) = split_package_id(row.package_id.as_str());
    if name.as_str().is_empty() {
        proof {
            assert(name@.len() == 0);
        }
        return None;
    }
    let found = find_entry(applications, &name);
    if found.is_none() && applications.len() > 0 {
        return None;
    }
    let dv = chars_of(data.as_str());
    let origin = match split_once_chars(&dv, ':') {
        Some((_, repo)) => if repo.len() > 0 {
            Some(string_of(&repo))
        } else {
            None
        },
        None => None,
    };
    let base = AppRef::new(BackendId::PackageKit, name.clone());
    let app_ref = match origin {
        Some(o) => base.with_origin(o),
        None => base,
    };
    let (display, icon) = match found {
        Some(k) => {
            let e = &applications[k].1;
            let icon = match &e.icon {
                Some(i) => Some(IconSource::Themed(i.clone())),
                None => None,
            };
            (e.name.clone(), icon)
        },
        None => (name.clone(), None),
    };
    let summary = if !row.summary.as_str().is_empty() {
        Some(row.summary.clone())
    } else {
        None
    };
    let shown_version = if !version.as_str().is_empty() {
        Some(version.clone())
    } else {
        None
    };
    let app = App {
        app_ref,
        name: display,
        summary,
        description: None,
        developer: None,
        license: None,
        categories: Vec::new(),
        icon,
        screenshots: Vec::new(),
        releases: Vec::new(),
        version: shown_version,
        download_size: None,
        installed_size: None,
        sandbox: None,
    };
    let update = if has_update {
        Some(Update { version: version.clone(), download_size: None, releases: Vec::new() })
    } else {
        None
    };
    let installed_version = if !version.as_str().is_empty() {
        Some(version)
    } else {
        None
    };
    Some(InstalledApp { app, installed_version, update })
}

/// The rows that stand for applications, each as the installed app it is.
pub open spec fn listed_rows(ids: Seq<Seq<char>>, apps: Seq<(Seq<char>, EntryView)>) -> Seq<
    Seq<char>,
> {
    ids.filter(|id: Seq<char>| lists_row(id, apps))
}

/// The rows that stand for installed applications, in order.
pub open spec fn listed(rows: Seq<PackageRow>, apps: Seq<(Seq<char>, EntryView)>) -> Seq<PackageRow> {
    rows.filter(|r: PackageRow| lists_row(r.package_id@, apps))
}

/// The package ids of a list of rows.
pub open spec fn row_ids(rows: Seq<PackageRow>) -> Seq<Seq<char>> {
    rows.map_values(|r: PackageRow| r.package_id@)
}

/// The app name each installed app is listed under.
pub open spec fn installed_ids(apps: Seq<InstalledApp>) -> Seq<Seq<char>> {
    apps.map_values(|a: InstalledApp| a.app.app_ref.id@)
}

/// The installed applications among `rows`, in row order.
pub fn installed_from_rows(
    rows: &Vec<PackageRow>,
    has_update: bool,
    applications: &Vec<(String, Entry)>,
) -> (r: Vec<InstalledApp>)
    ensures
        r@.len() == listed(rows@, keyed_views(applications@)).len(),
        forall|i: int| 0 <= i < r@.len() ==> installed_is(
            #[trigger] r@[i],
            listed(rows@, keyed_views(applications@))[i],
            has_update,
            keyed_views(applications@),
        ),
        installed_ids(r@) == listed_rows(row_ids(rows@), keyed_views(applications@)).map_values(
            |id: Seq<char>| id_part(id, 0),
        ),
{
    let ghost ids = row_ids(rows@);
    let ghost apps = keyed_views(applications@);
    let mut out: Vec<InstalledApp> = Vec::new();
    let mut i: usize = 0;
    proof {
        assert(ids.take(0).filter(|id: Seq<char>| lists_row(id, apps)) =~= Seq::<
            Seq<char>,
        >::empty()) by {
            reveal(Seq::filter);
        }
        assert(installed_ids(out@) =~= Seq::<Seq<char>>::empty());
    }
    while i < rows.len()
        invariant
            ids == row_ids(rows@),
            apps == keyed_views(applications@),
            i <= rows@.len(),
            installed_ids(out@) == listed_rows(ids.take(i as int), apps).map_values(
                |id: Seq<char>| id_part(id, 0),
            ),
            out@.len() == listed(rows@.take(i as int), apps).len(),
            forall|k: int| 0 <= k < out@.len() ==> installed_is(
                #[trigger] out@[k],
                listed(rows@.take(i as int), apps)[k],
                has_update,
                apps,
            ),
        decreases rows@.len() - i,
    {
        let ghost done = listed(rows@.take(i as int), apps);
        proof {
            assert(rows@.take(i + 1 as int).drop_last() =~= rows@.take(i as int));
            assert(rows@.take(i + 1 as int).last() == rows@[i as int]);
            assert(ids.take(i + 1 as int).drop_last() =~= ids.take(i as int));
            assert(ids[i as int] == rows@[i as int].package_id@);
            reveal(Seq::filter);
        }
        let ghost before = out@;
        match to_installed(&rows[i], has_update, applications) {
            Some(ia) => {
                out.push(ia);
                assert(installed_ids(out@) =~= installed_ids(before).push(
                    id_part(rows@[i as int].package_id@, 0),
                ));
                assert(listed(rows@.take(i + 1 as int), apps) =~= done.push(rows@[i as int]));
                assert forall|k: int| 0 <= k < out@.len() implies installed_is(
                    #[trigger] out@[k],
                    listed(rows@.take(i + 1 as int), apps)[k],
                    has_update,
                    apps,
                ) by {
                    if k < before.len() {
                        assert(out@[k] == before[k]);
                    }
                }
            },
            None => {
                assert(listed(rows@.take(i + 1 as int), apps) =~= done);
            },
        }
        i = i + 1;
    }
    assert(ids.take(i as int) =~= ids);
    assert(rows@.take(i as int) =~= rows@);
    out
}

/// An app's details: the first row named `app_ref`'s id, as long as it
/// stands for an application; otherwise the app is not found.
pub fn details_from_rows(
    rows: &Vec<PackageRow>,
    app_ref: &AppRef,
    applications: &Vec<(String, Entry)>,
) -> (r: Result<App, Error>)
    ensures
        match r {
            Ok(app) => exists|k: int|
                0 <= k < rows@.len() && id_part(#[trigger] rows@[k].package_id@, 0) == app_ref.id@
                    && (forall|m: int|
                    0 <= m < k ==> id_part(#[trigger] rows@[m].package_id@, 0) != app_ref.id@)
                    && lists_row(rows@[k].package_id@, keyed_views(applications@)) && row_app_is(
                    app,
                    rows@[k].package_id@,
                    rows@[k].summary@,
                    keyed_views(applications@),
                ),
            Err(e) => e matches Error::NotFound(a) && a.id@ == app_ref.id@ && a.backend
                == app_ref.backend && origin_view(a.origin) == origin_view(app_ref.origin) && (
            forall|k: int|
                0 <= k < rows@.len() && id_part(#[trigger] rows@[k].package_id@, 0) == app_ref.id@
                    ==> (!lists_row(rows@[k].package_id@, keyed_views(applications@)) || exists|
                    m: int,
                |
                    0 <= m < k && id_part(#[trigger] rows@[m].package_id@, 0) == app_ref.id@)),
        },
{
    let mut k: usize = 0;
    while k < rows.len()
        invariant
            k <= rows@.len(),
            forall|m: int| 0 <= m < k ==> id_part(#[trigger] rows@[m].package_id@, 0) != app_ref.id@,
        decreases rows@.len() - k,
    {
        let (name, _, _, _) = split_package_id(rows[k].package_id.as_str());
        if name == app_ref.id {
            match to_installed(&rows[k], false, applications) {
                Some(ia) => {
                    return Ok(ia.app);
                },
                None => {
                    return Err(Error::NotFound(copy_ref(app_ref)));
                },
            }
        }
        k = k + 1;
    }
    Err(Error::NotFound(copy_ref(app_ref)))
}

/// A copy of an app reference.
fn copy_ref(a: &AppRef) -> (r: AppRef)
    ensures
        r.backend == a.backend,
        r.id@ == a.id@,
        origin_view(r.origin) == origin_view(a.origin),
{
    let origin = match &a.origin {
        Some(o) => Some(o.clone()),
        None => None,
    };
    AppRef { backend: a.backend, id: a.id.clone(), origin }
}

/// The full package id the first resolved row names.
pub fn resolved_id(rows: &Vec<PackageRow>) -> (r: Option<String>)
    ensures
        match r {
            Some(id) => rows@.len() > 0 && id@ == rows@[0].package_id@,
            None => rows@.len() == 0,
        },
{
    if rows.len() > 0 {
        Some(rows[0].package_id.clone())
    } else {
        None
    }
}

/// The plan item one simulated row amounts to: everything but the
/// requested package is a dependency, and sizes are not known.
pub open spec fn row_item(id: Seq<char>, app_id: Seq<char>) -> PlanItemView {
    let name = id_part(id, 0);
    let version = id_part(id, 1);
    PlanItemView {
        id: name,
        name: if version.len() == 0 {
            name
        } else {
            name + " "@ + version
        },
        is_runtime: name != app_id,
        download_size: 0,
        installed_size: 0,
    }
}

/// The items of a plan listed the way a plan shows them: the requested
/// package first, then its dependencies, each group in the order given.
pub open spec fn app_first(items: Seq<PlanItemView>) -> Seq<PlanItemView> {
    items.filter(|it: PlanItemView| !it.is_runtime) + items.filter(|it: PlanItemView| it.is_runtime)
}

/// `items` with the requested package moved in front of its dependencies.
fn order_app_first(items: Vec<PlanItem>) -> (r: Vec<PlanItem>)
    ensures
        item_views(r@) == app_first(item_views(items@)),
{
    let ghost all = item_views(items@);
    let mut rest = items;
    let mut apps: Vec<PlanItem> = Vec::new();
    let mut deps: Vec<PlanItem> = Vec::new();
    let ghost mut k: int = 0;
    proof {
        reveal(Seq::filter);
        assert(all.take(0) =~= Seq::<PlanItemView>::empty());
        assert(rest@ =~= items@.skip(0));
        assert(item_views(apps@) =~= all.take(0).filter(|it: PlanItemView| !it.is_runtime));
        assert(item_views(deps@) =~= all.take(0).filter(|it: PlanItemView| it.is_runtime));
    }
    while rest.len() > 0
        invariant
            0 <= k <= items@.len(),
            all == item_views(items@),
            rest@ == items@.skip(k),
            rest@.len() == items@.len() - k,
            item_views(apps@) == all.take(k).filter(|it: PlanItemView| !it.is_runtime),
            item_views(deps@) == all.take(k).filter(|it: PlanItemView| it.is_runtime),
        decreases rest@.len(),
    {
        let ghost rb = rest@;
        let ghost ab = apps@;
        let ghost db = deps@;
        let item = rest.remove(0);
        proof {
            reveal(Seq::filter);
            assert(items@[k] == item);
            assert(all[k] == item@);
            assert(all.take(k + 1).drop_last() =~= all.take(k));
            assert(all.take(k + 1).last() == item@);
        }
        if !item.is_runtime {
            apps.push(item);
            assert(item_views(apps@) =~= item_views(ab).push(item@));
            assert(item_views(deps@) =~= item_views(db));
        } else {
            deps.push(item);
            assert(item_views(deps@) =~= item_views(db).push(item@));
            assert(item_views(apps@) =~= item_views(ab));
        }
        proof {
            assert(rest@ =~= rb.skip(1));
            k = k + 1;
            assert(rest@ =~= items@.skip(k));
        }
    }
    assert(all.take(k) =~= all);
    let ghost a = apps@;
    let ghost d = deps@;
    apps.append(&mut deps);
    assert(item_views(apps@) =~= item_views(a) + item_views(d));
    apps
}

/// The install plan a simulated install reports: nothing when no row came
/// back, otherwise one item per row, the requested package first and then
/// its dependencies, each in the order the rows came.
pub fn plan_from_rows(rows: &Vec<PackageRow>, app_id: &str, origin: Option<String>) -> (r: Option<
    InstallPlan,
>)
    ensures
        r is Some <==> rows@.len() > 0,
        r matches Some(plan) ==> {
            &&& plan.format@ == "System package"@
            &&& opt_view(plan.source) == opt_view(origin)
            &&& item_views(plan.items@) == app_first(row_ids(rows@).map_values(
                |id: Seq<char>| row_item(id, app_id@),
            ))
        },
{
    if rows.len() == 0 {
        return None;
    }
    let ghost ids = row_ids(rows@);
    let mut items: Vec<PlanItem> = Vec::new();
    let mut i: usize = 0;
    assert(item_views(items@) =~= ids.take(0).map_values(|id: Seq<char>| row_item(id, app_id@)));
    while i < rows.len()
        invariant
            ids == row_ids(rows@),
            i <= rows@.len(),
            item_views(items@) == ids.take(i as int).map_values(
                |id: Seq<char>| row_item(id, app_id@),
            ),
        decreases rows@.len() - i,
    {
        let (name, version, _, _) = split_package_id(rows[i].package_id.as_str());
        let shown = if version.as_str().is_empty() {
            name.clone()
        } else {
            let mut s = name.clone();
            push_str(&mut s, " ");
            push_str(&mut s, version.as_str());
            s
        };
        let is_runtime = !equal_text(name.as_str(), app_id);
        let item = PlanItem {
            id: name,
            name: shown,
            is_runtime,
            download_size: 0,
            installed_size: 0,
        };
        let ghost before = items@;
        items.push(item);
        proof {
            assert(ids[i as int] == rows@[i as int].package_id@);
            assert(item_views(items@) =~= item_views(before).push(item@));
            assert(ids.take(i + 1 as int) =~= ids.take(i as int).push(ids[i as int]));
        }
        i = i + 1;
    }
    assert(ids.take(i as int) =~= ids);
    let items = order_app_first(items);
    Some(InstallPlan { format: "System package", source: origin, items })
}

/// Whether two strings hold the same characters.
fn equal_text(a: &str, b: &str) -> (r: bool)
    ensures
        r == (a@ == b@),
{
    let x = chars_of(a);
    crate::text::eq_lit(&x, b)
}

/// The phase an item's PackageKit status puts a transaction in.
pub open spec fn status_phase(status: u32) -> Phase {
    if status == STATUS_DOWNLOADING {
        Phase::Downloading
    } else if status == STATUS_REMOVING {
        Phase::Removing
    } else if status == STATUS_INSTALLING || status == STATUS_UPDATING {
        Phase::Installing
    } else {
        Phase::Resolving
    }
}

/// Map an item's status onto the phase shown.
pub fn phase_for_status(status: u32) -> (p: Phase)
    ensures
        p == status_phase(status),
{
    if status == STATUS_DOWNLOADING {
        Phase::Downloading
    } else if status == STATUS_REMOVING {
        Phase::Removing
    } else if status == STATUS_INSTALLING || status == STATUS_UPDATING {
        Phase::Installing
    } else {
        Phase::Resolving
    }
}

/// Map `PkErrorEnum` onto the library's errors. The two worth
/// distinguishing are the ones the interface can act on: a declined
/// authorisation prompt, and anything network-shaped.
pub fn map_error(code: u32, details: String) -> (e: Error)
    ensures
        code == ERROR_NOT_AUTHORIZED ==> e is NotAuthorized,
        code == ERROR_NO_NETWORK ==> (e matches Error::Network(d) && d@ == details@),
        code != ERROR_NOT_AUTHORIZED && code != ERROR_NO_NETWORK ==> (e matches Error::Backend(d)
            && d@ == details@),
{
    if code == ERROR_NOT_AUTHORIZED {
        Error::NotAuthorized
    } else if code == ERROR_NO_NETWORK {
        Error::Network(details)
    } else {
        Error::Backend(details)
    }
}

/// A signal of a running PackageKit transaction.
pub enum TransactionEvent {
    /// A `Package` row of a query.
    Package(PackageRow),
    /// `ItemProgress`: a package's status and percentage.
    ItemProgress { status: u32, percentage: u32 },
    /// `ErrorCode`: the transaction failed.
    ErrorCode { code: u32, details: String },
    /// `Finished`: the transaction's exit status.
    Finished { exit: u32 },
}

/// What to do after a signal of a transaction.
pub enum TransactionStep {
    /// Keep the row and wait for more.
    Keep(PackageRow),
    /// Report the phase, with how far along it is when that is known.
    Report { phase: Phase, percent: Option<u32> },
    /// Wait for more signals.
    Wait,
    /// Stop: the transaction succeeded.
    Done,
    /// Stop: the transaction failed.
    Fail(Error),
}

/// Whether `m` says `prefix` followed by the exit status `exit`.
pub open spec fn exit_message(m: Seq<char>, prefix: Seq<char>, exit: u32) -> bool {
    m == prefix + decimal(exit as nat)
}

/// Decide what a signal means for a transaction. A query keeps the rows it
/// is sent; an operation reports progress. Either stops at its error or at
/// its exit status, which is a failure unless it is `EXIT_SUCCESS`.
pub fn on_transaction_event(event: TransactionEvent, is_query: bool) -> (step: TransactionStep)
    ensures
        match event {
            TransactionEvent::Package(row) => if is_query {
                step matches TransactionStep::Keep(r) && r.package_id@ == row.package_id@
                    && r.summary@ == row.summary@ && r.info == row.info
            } else {
                step is Wait
            },
            TransactionEvent::ItemProgress { status, percentage } => if is_query {
                step is Wait
            } else {
                step matches TransactionStep::Report { phase, percent } && phase == status_phase(
                    status,
                ) && percent == (if percentage <= 100 {
                    Some(percentage)
                } else {
                    None::<u32>
                })
            },
            TransactionEvent::ErrorCode { code, details } => step matches TransactionStep::Fail(e)
                && (code == ERROR_NOT_AUTHORIZED ==> e is NotAuthorized) && (code
                == ERROR_NO_NETWORK ==> (e matches Error::Network(d) && d@ == details@)) && (code
                != ERROR_NOT_AUTHORIZED && code != ERROR_NO_NETWORK ==> (e matches Error::Backend(
                d,
            ) && d@ == details@)),
            TransactionEvent::Finished { exit } => if exit == EXIT_SUCCESS {
                step is Done
            } else {
                step matches TransactionStep::Fail(e) && e matches Error::Backend(m) && exit_message(
                    m@,
                    if is_query {
                        "the package manager exited with status "@
                    } else {
                        "the operation ended with status "@
                    },
                    exit,
                )
            },
        },
{
    match event {
        TransactionEvent::Package(row) => if is_query {
            TransactionStep::Keep(row)
        } else {
            TransactionStep::Wait
        },
        TransactionEvent::ItemProgress { status, percentage } => if is_query {
            TransactionStep::Wait
        } else {
            let percent = if percentage <= 100 {
                Some(percentage)
            } else {
                None
            };
            TransactionStep::Report { phase: phase_for_status(status), percent }
        },
        TransactionEvent::ErrorCode { code, details } => TransactionStep::Fail(
            map_error(code, details),
        ),
        TransactionEvent::Finished { exit } => if exit == EXIT_SUCCESS {
            TransactionStep::Done
        } else {
            let mut m = String::new();
            if is_query {
                push_str(&mut m, "the package manager exited with status ");
            } else {
                push_str(&mut m, "the operation ended with status ");
            }
            push_decimal(&mut m, exit as u64);
            TransactionStep::Fail(Error::Backend(m))
        },
    }
}

/// The error for a package name that resolves to nothing.
pub fn no_such_package(name: &str) -> (e: Error)
    ensures
        e matches Error::Backend(m) && m@ == "no package named "@ + name@,
{
    let mut m = String::new();
    push_str(&mut m, "no package named ");
    push_str(&mut m, name);
    Error::Backend(m)
}

/// Distro packages have no sandbox, so there is no permission to change.
pub fn no_sandbox_to_adjust() -> (e: Error)
    ensures
        e matches Error::Backend(m) && m@ == "distro packages have no sandbox to adjust"@,
{
    Error::Backend("distro packages have no sandbox to adjust".to_owned())
}

/// Updating every distro package at once is not offered.
pub fn update_everything_unsupported() -> (e: Error)
    ensures
        e matches Error::Backend(m) && m@ == "updating everything is not supported yet"@,
{
    Error::Backend("updating everything is not supported yet".to_owned())
}

} // verus!
