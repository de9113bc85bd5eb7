//! The app catalog's decisions: what AppStream components are indexed, how
//! a search term becomes a full-text query, and how a stored row becomes an
//! app.
//!
//! The catalog is a pure cache: AppStream metadata parsed once into SQLite
//! with a full-text index, fingerprinted against the source commit, and
//! queried thereafter. The database itself is driven from outside; what it
//! stores and what is read back are decided here.

use vstd::prelude::*;
use crate::desktop::opt_view;
use crate::text::{
    chars_of, eq_lit, join, join_strings, push_char, push_str, remove_char, remove_char_chars,
    split, split_chars, string_of, string_views, views, words, words_chars,
};
use crate::types::{App, AppRef, BackendId, IconSource, backend_name, origin_view};

verus! {

/// One catalog file plus the icon directory that goes with it.
#[derive(Debug, Clone)]
pub struct Source {
    /// Stable identity for this source, e.g. `flatpak:flathub:x86_64`.
    pub key: String,
    pub origin: String,
    pub catalog: String,
    pub icons: String,
    /// Changes when the catalog content changes; used to skip re-ingest.
    pub fingerprint: String,
}

/// The key of the catalog a remote publishes for one architecture.
pub fn source_key(remote: &str, arch: &str) -> (k: String)
    ensures
        k@ == "flatpak:"@ + remote@ + ":"@ + arch@,
{
    let mut k = String::new();
    push_str(&mut k, "flatpak:");
    push_str(&mut k, remote);
    push_str(&mut k, ":");
    push_str(&mut k, arch);
    k
}

/// Whether a source whose key has `stored` recorded is indexed as it stands:
/// the stored fingerprint matches and there is a fingerprint at all.
pub open spec fn current(stored: Option<Seq<char>>, fingerprint: Seq<char>) -> bool {
    stored == Some(fingerprint) && fingerprint.len() > 0
}

/// The fingerprint recorded for `key` in a table of fingerprints by
/// source key.
pub open spec fn recorded(table: Map<Seq<char>, Seq<char>>, key: Seq<char>) -> Option<Seq<char>> {
    if table.dom().contains(key) {
        Some(table[key])
    } else {
        None
    }
}

/// The fingerprint table after an ingest of source `key` with
/// `fingerprint`: untouched when the source was current and so skipped,
/// otherwise with the new fingerprint recorded for the key.
pub open spec fn after_ingest(table: Map<Seq<char>, Seq<char>>, key: Seq<char>, fingerprint: Seq<char>) -> Map<
    Seq<char>,
    Seq<char>,
> {
    if current(recorded(table, key), fingerprint) {
        table
    } else {
        table.insert(key, fingerprint)
    }
}

/// Ingesting an unchanged catalog twice does the work once: after one
/// ingest of a source with a fingerprint, the source is current, so a
/// second ingest with the same fingerprint is skipped and leaves the table
/// as the first left it. Other sources' fingerprints are never touched.
pub proof fn law_second_ingest_is_skipped(
    table: Map<Seq<char>, Seq<char>>,
    key: Seq<char>,
    fingerprint: Seq<char>,
    other: Seq<char>,
)
    requires
        fingerprint.len() > 0,
    ensures
        current(recorded(after_ingest(table, key, fingerprint), key), fingerprint),
        after_ingest(after_ingest(table, key, fingerprint), key, fingerprint) == after_ingest(
            table,
            key,
            fingerprint,
        ),
        other != key ==> recorded(after_ingest(table, key, fingerprint), other) == recorded(table, other),
{
}

/// Whether a source is already indexed as it stands.
pub fn is_current(stored: Option<String>, fingerprint: &str) -> (b: bool)
    ensures
        b == current(opt_view(stored), fingerprint@),
{
    match stored {
        Some(s) => !fingerprint.is_empty() && equal_text(s.as_str(), fingerprint),
        None => false,
    }
}

/// Whether two strings hold the same characters.
fn equal_text(a: &str, b: &str) -> (r: bool)
    ensures
        r == (a@ == b@),
{
    let x = chars_of(a);
    eq_lit(&x, b)
}

/// Restricts which apps a query returns.
#[derive(Debug, Default, Clone)]
pub struct Filter {
    /// Packaging format, as [`BackendId::as_str`] names it; `None` means
    /// every format.
    pub backend: Option<String>,
}

impl Filter {
    /// The value bound into the query: the empty string means no filter.
    pub fn value(&self) -> (v: String)
        ensures
            v@ == (match opt_view(self.backend) {
                Some(b) => b,
                None => Seq::empty(),
            }),
    {
        match &self.backend {
            Some(b) => b.clone(),
            None => String::new(),
        }
    }
}

/// A word as a quoted prefix match: `"word"*`.
pub open spec fn quote(body: Seq<char>) -> Seq<char> {
    seq!['"'] + body + seq!['"', '*']
}

/// The quoted prefix-match tokens of a search, in order: each word with
/// its double quotes removed, empty ones dropped, as `"word"*`.
pub open spec fn fts_tokens(ws: Seq<Seq<char>>) -> Seq<Seq<char>>
    decreases ws.len(),
{
    if ws.len() == 0 {
        Seq::empty()
    } else {
        let prev = fts_tokens(ws.drop_last());
        let t = remove_char(ws.last(), '"');
        if t.len() == 0 {
            prev
        } else {
            prev.push(quote(t))
        }
    }
}

/// The full-text query a search term amounts to, or nothing when no word
/// survives: every word matches as a prefix, and all of them must.
pub open spec fn fts_query_of(term: Seq<char>) -> Option<Seq<char>> {
    let tokens = fts_tokens(words(term));
    if tokens.len() == 0 {
        None
    } else {
        Some(join(tokens, " AND "@))
    }
}

/// Whether `t` is one quoted prefix token: a double quote, a body with
/// no double quote in it, a double quote and a `*`.
pub open spec fn quoted_token(t: Seq<char>) -> bool {
    exists|body: Seq<char>|
        body.len() > 0 && !body.contains('"') && t == #[trigger] quote(body)
}

/// Every token of a search is quoted, with no quote left inside it, so no
/// punctuation a user types is ever read as query syntax.
pub proof fn law_search_tokens_are_quoted(ws: Seq<Seq<char>>)
    ensures
        forall|i: int| 0 <= i < fts_tokens(ws).len() ==> quoted_token(#[trigger] fts_tokens(ws)[i]),
    decreases ws.len(),
{
    if ws.len() > 0 {
        law_search_tokens_are_quoted(ws.drop_last());
        let prev = fts_tokens(ws.drop_last());
        let t = remove_char(ws.last(), '"');
        if t.len() > 0 {
            let pred = |x: char| x != '"';
            ws.last().filter_lemma(pred);
            assert(!t.contains('"'));
            assert(quoted_token(quote(t)));
            assert forall|i: int| 0 <= i < fts_tokens(ws).len() implies quoted_token(#[trigger] fts_tokens(ws)[i]) by {
                if i < prev.len() {
                    assert(fts_tokens(ws)[i] == prev[i]);
                }
            }
        }
    }
}

/// Turn user input into a full-text MATCH expression. Every token is quoted
/// and given a `*` suffix, so the search updates on each keystroke and
/// stray punctuation is never read as query syntax.
pub fn fts_query(term: &str) -> (r: Option<String>)
    ensures
        opt_view(r) == fts_query_of(term@),
{
    let v = chars_of(term);
    let ws = words_chars(&v);
    let ghost wv = views(ws@);
    let mut tokens: Vec<String> = Vec::new();
    let mut i: usize = 0;
    assert(string_views(tokens@) =~= fts_tokens(wv.take(0)));
    while i < ws.len()
        invariant
            wv == views(ws@),
            wv == words(term@),
            i <= ws@.len(),
            string_views(tokens@) == fts_tokens(wv.take(i as int)),
        decreases ws@.len() - i,
    {
        proof {
            assert(wv.take(i + 1 as int).drop_last() =~= wv.take(i as int));
            assert(wv[i as int] == ws@[i as int]@);
        }
        let t = remove_char_chars(&ws[i], '"');
        if t.len() > 0 {
            let mut tok = String::new();
            push_char(&mut tok, '"');
            let body = string_of(&t);
            push_str(&mut tok, body.as_str());
            push_char(&mut tok, '"');
            push_char(&mut tok, '*');
            let ghost before = tokens@;
            tokens.push(tok);
            assert(string_views(tokens@) =~= string_views(before).push(tok@));
            assert(tok@ =~= quote(t@));
        }
        i = i + 1;
    }
    assert(wv.take(i as int) =~= wv);
    if tokens.len() == 0 {
        None
    } else {
        Some(join_strings(&tokens, " AND "))
    }
}

/// The backend a stored backend name stands for; anything unrecognised is
/// Flatpak, the one format the catalog indexes itself.
pub open spec fn backend_of(name: Seq<char>) -> BackendId {
    if name == "packagekit"@ {
        BackendId::PackageKit
    } else if name == "appimage"@ {
        BackendId::AppImage
    } else {
        BackendId::Flatpak
    }
}

/// Read a stored backend name.
pub fn backend_from_name(name: &str) -> (b: BackendId)
    ensures
        b == backend_of(name@),
{
    let v = chars_of(name);
    if eq_lit(&v, "packagekit") {
        BackendId::PackageKit
    } else if eq_lit(&v, "appimage") {
        BackendId::AppImage
    } else {
        BackendId::Flatpak
    }
}

/// The non-empty pieces of a `;`-separated list, in order.
pub open spec fn list_items(pieces: Seq<Seq<char>>) -> Seq<Seq<char>>
    decreases pieces.len(),
{
    if pieces.len() == 0 {
        Seq::empty()
    } else {
        let prev = list_items(pieces.drop_last());
        if pieces.last().len() == 0 {
            prev
        } else {
            prev.push(pieces.last())
        }
    }
}

/// The categories of a stored `;`-separated list.
pub fn category_list(stored: &str) -> (r: Vec<String>)
    ensures
        string_views(r@) == list_items(split(stored@, ';')),
{
    let v = chars_of(stored);
    let parts = split_chars(&v, ';');
    let ghost pv = views(parts@);
    let mut out: Vec<String> = Vec::new();
    let mut i: usize = 0;
    assert(string_views(out@) =~= list_items(pv.take(0)));
    while i < parts.len()
        invariant
            pv == views(parts@),
            pv == split(stored@, ';'),
            i <= parts@.len(),
            string_views(out@) == list_items(pv.take(i as int)),
        decreases parts@.len() - i,
    {
        proof {
            assert(pv.take(i + 1 as int).drop_last() =~= pv.take(i as int));
            assert(pv[i as int] == parts@[i as int]@);
        }
        if parts[i].len() > 0 {
            let c = string_of(&parts[i]);
            let ghost before = out@;
            out.push(c);
            assert(string_views(out@) =~= string_views(before).push(c@));
        }
        i = i + 1;
    }
    assert(pv.take(i as int) =~= pv);
    out
}

/// The columns of one stored app, as a list query reads them.
#[derive(Debug, Clone)]
pub struct CatalogRow {
    pub backend: String,
    pub app_id: String,
    pub origin: Option<String>,
    pub name: String,
    pub summary: Option<String>,
    pub description: Option<String>,
    pub developer: Option<String>,
    pub license: Option<String>,
    pub version: Option<String>,
    pub icon_path: Option<String>,
    pub categories: String,
}

/// Whether `app` is what a stored row reads as.
pub open spec fn row_app(app: App, row: CatalogRow) -> bool {
    &&& app.app_ref.backend == backend_of(row.backend@)
    &&& app.app_ref.id@ == row.app_id@
    &&& origin_view(app.app_ref.origin) == opt_view(row.origin)
    &&& app.name@ == row.name@
    &&& opt_view(app.summary) == opt_view(row.summary)
    &&& opt_view(app.description) == opt_view(row.description)
    &&& opt_view(app.developer) == opt_view(row.developer)
    &&& opt_view(app.license) == opt_view(row.license)
    &&& opt_view(app.version) == opt_view(row.version)
    &&& (match (app.icon, row.icon_path) {
        (Some(IconSource::Cached(p)), Some(q)) => p@ == q@,
        (None, None) => true,
        _ => false,
    })
    &&& string_views(app.categories@) == list_items(split(row.categories@, ';'))
    &&& app.screenshots@.len() == 0
    &&& app.releases@.len() == 0
    &&& app.download_size is None
    &&& app.installed_size is None
    &&& app.sandbox is None
}

/// A copy of an optional string.
fn copy_opt(o: &Option<String>) -> (r: Option<String>)
    ensures
        opt_view(r) == opt_view(*o),
{
    match o {
        Some(s) => Some(s.clone()),
        None => None,
    }
}

/// The app a stored row describes. Screenshots and releases are attached
/// only when one app's full record is asked for.
pub fn row_to_app(row: &CatalogRow) -> (app: App)
    ensures
        row_app(app, *row),
{
    let backend = backend_from_name(row.backend.as_str());
    let base = AppRef::new(backend, row.app_id.clone());
    let app_ref = match &row.origin {
        Some(o) => base.with_origin(o.clone()),
        None => base,
    };
    let icon = match &row.icon_path {
        Some(p) => Some(IconSource::Cached(p.clone())),
        None => None,
    };
    App {
        app_ref,
        name: row.name.clone(),
        summary: copy_opt(&row.summary),
        description: copy_opt(&row.description),
        developer: copy_opt(&row.developer),
        license: copy_opt(&row.license),
        categories: category_list(row.categories.as_str()),
        icon,
        screenshots: Vec::new(),
        releases: Vec::new(),
        version: copy_opt(&row.version),
        download_size: None,
        installed_size: None,
        sandbox: None,
    }
}

/// `Some(s)` for a text that is present and not empty.
pub open spec fn present(o: Option<Seq<char>>) -> Option<Seq<char>> {
    match o {
        Some(s) => if s.len() > 0 {
            Some(s)
        } else {
            None
        },
        None => None,
    }
}

/// A copy of an optional string, dropping an empty one.
fn present_text(o: &Option<String>) -> (r: Option<String>)
    ensures
        opt_view(r) == present(opt_view(*o)),
{
    match o {
        Some(s) => if s.as_str().is_empty() {
            None
        } else {
            Some(s.clone())
        },
        None => None,
    }
}

/// One image of a screenshot, as AppStream lists it.
#[derive(Debug, Clone)]
pub struct ImageInfo {
    /// Whether this is the full-size source image rather than a thumbnail.
    pub is_source: bool,
    pub url: String,
}

/// One screenshot of a component.
#[derive(Debug, Clone)]
pub struct ScreenshotInfo {
    pub caption: Option<String>,
    pub is_default: bool,
    pub images: Vec<ImageInfo>,
}

/// One release of a component, newest first.
#[derive(Debug, Clone)]
pub struct ReleaseInfo {
    pub version: String,
    pub timestamp: Option<i64>,
    pub description: Option<String>,
}

/// What an AppStream component says, in its default locale.
#[derive(Debug, Clone)]
pub struct ComponentInfo {
    /// Whether it is a desktop application rather than a runtime, addon,
    /// codec or font.
    pub is_desktop_app: bool,
    pub id: String,
    pub name: Option<String>,
    pub summary: Option<String>,
    pub description: Option<String>,
    pub developer: Option<String>,
    pub license: Option<String>,
    /// Freedesktop category names.
    pub categories: Vec<String>,
    /// Search keywords; they feed the index only and are never shown.
    pub keywords: Vec<String>,
    pub screenshots: Vec<ScreenshotInfo>,
    pub releases: Vec<ReleaseInfo>,
}

/// A screenshot as stored: the image shown, and where it stands among the
/// component's screenshots.
#[derive(Debug, Clone)]
pub struct ScreenshotRecord {
    pub url: String,
    pub caption: Option<String>,
    pub is_default: bool,
    pub position: u64,
}

/// A release as stored.
#[derive(Debug, Clone)]
pub struct ReleaseRecord {
    pub version: String,
    pub timestamp: Option<i64>,
    pub description: Option<String>,
    pub position: u64,
}

/// What is stored for one component.
#[derive(Debug, Clone)]
pub struct AppRecord {
    pub app_id: String,
    pub name: String,
    pub summary: Option<String>,
    pub description: Option<String>,
    pub developer: Option<String>,
    pub license: Option<String>,
    /// The newest release's version.
    pub version: Option<String>,
    /// `;`-separated category names.
    pub categories: String,
    /// Space-separated keywords.
    pub keywords: String,
    pub screenshots: Vec<ScreenshotRecord>,
    pub releases: Vec<ReleaseRecord>,
}

/// Releases kept per app: a few apps carry hundreds and nobody scrolls past
/// the recent ones.
pub const RELEASES_KEPT: usize = 20;

/// The image a screenshot is shown by: the first full-size source image,
/// else the first image of any kind.
pub open spec fn shown_image(images: Seq<ImageInfo>) -> Option<ImageInfo> {
    if exists|k: int| 0 <= k < images.len() && (#[trigger] images[k]).is_source {
        Some(images[first_source(images)])
    } else if images.len() > 0 {
        Some(images[0])
    } else {
        None
    }
}

/// Index of the first source image, or the length when there is none.
pub open spec fn first_source(images: Seq<ImageInfo>) -> int
    decreases images.len(),
{
    if images.len() == 0 {
        0
    } else if images[0].is_source {
        0
    } else {
        1 + first_source(images.drop_first())
    }
}

proof fn lemma_first_source(images: Seq<ImageInfo>, i: int)
    requires
        0 <= i <= images.len(),
        forall|k: int| 0 <= k < i ==> !(#[trigger] images[k]).is_source,
        i == images.len() || images[i].is_source,
    ensures
        first_source(images) == i,
    decreases i,
{
    if i > 0 {
        assert forall|k: int| 0 <= k < i - 1 implies !(#[trigger] images.drop_first()[k]).is_source by {
            assert(images.drop_first()[k] == images[k + 1]);
        }
        lemma_first_source(images.drop_first(), i - 1);
    }
}

/// The screenshots stored for a component: one per screenshot with any
/// image, each keeping its position among all of them.
pub open spec fn stored_shots(shots: Seq<ScreenshotInfo>) -> Seq<(Seq<char>, Option<Seq<char>>, bool, int)>
    decreases shots.len(),
{
    if shots.len() == 0 {
        Seq::empty()
    } else {
        let prev = stored_shots(shots.drop_last());
        let s = shots.last();
        match shown_image(s.images@) {
            Some(img) => prev.push(
                (img.url@, present(opt_view(s.caption)), s.is_default, shots.len() - 1),
            ),
            None => prev,
        }
    }
}

/// A stored screenshot as plain values.
pub open spec fn shot_view(r: ScreenshotRecord) -> (Seq<char>, Option<Seq<char>>, bool, int) {
    (r.url@, opt_view(r.caption), r.is_default, r.position as int)
}

/// A stored release as plain values.
pub open spec fn release_view(r: ReleaseRecord) -> (Seq<char>, Option<i64>, Option<Seq<char>>, int) {
    (r.version@, r.timestamp, opt_view(r.description), r.position as int)
}

/// The releases stored for a component: the newest twenty, in order.
pub open spec fn stored_releases(releases: Seq<ReleaseInfo>) -> Seq<
    (Seq<char>, Option<i64>, Option<Seq<char>>, int),
> {
    let kept = if releases.len() > RELEASES_KEPT {
        releases.take(RELEASES_KEPT as int)
    } else {
        releases
    };
    Seq::new(
        kept.len(),
        |i: int| (kept[i].version@, kept[i].timestamp, present(opt_view(kept[i].description)), i),
    )
}

/// What is stored for a component, or nothing: only desktop applications
/// with a name are indexed.
pub open spec fn record_is(r: AppRecord, c: ComponentInfo) -> bool {
    &&& r.app_id@ == c.id@
    &&& Some(r.name@) == present(opt_view(c.name))
    &&& opt_view(r.summary) == present(opt_view(c.summary))
    &&& opt_view(r.description) == present(opt_view(c.description))
    &&& opt_view(r.developer) == present(opt_view(c.developer))
    &&& opt_view(r.license) == opt_view(c.license)
    &&& opt_view(r.version) == (if c.releases@.len() > 0 {
        Some(c.releases@[0].version@)
    } else {
        None
    })
    &&& r.categories@ == join(string_views(c.categories@), ";"@)
    &&& r.keywords@ == join(string_views(c.keywords@), " "@)
    &&& r.screenshots@.map_values(|s: ScreenshotRecord| shot_view(s)) == stored_shots(
        c.screenshots@,
    )
    &&& r.releases@.map_values(|s: ReleaseRecord| release_view(s)) == stored_releases(
        c.releases@,
    )
}

/// Whether a component is indexed at all.
pub open spec fn indexed(c: ComponentInfo) -> bool {
    c.is_desktop_app && present(opt_view(c.name)) is Some
}

/// The image a screenshot is shown by.
fn pick_image(images: &Vec<ImageInfo>) -> (r: Option<usize>)
    ensures
        match (r, shown_image(images@)) {
            (Some(k), Some(img)) => k < images@.len() && images@[k as int] == img,
            (None, None) => true,
            _ => false,
        },
{
    let mut k: usize = 0;
    while k < images.len()
        invariant
            k <= images@.len(),
            forall|m: int| 0 <= m < k ==> !(#[trigger] images@[m]).is_source,
        decreases images@.len() - k,
    {
        if images[k].is_source {
            proof {
                lemma_first_source(images@, k as int);
            }
            return Some(k);
        }
        k = k + 1;
    }
    if images.len() > 0 {
        Some(0)
    } else {
        None
    }
}

/// What to store for one component, or `None` when it is not indexed: a
/// runtime, addon, codec or font, or an app with no name to list it by.
pub fn component_record(c: &ComponentInfo) -> (r: Option<AppRecord>)
    ensures
        r is Some <==> indexed(*c),
        r matches Some(rec) ==> record_is(rec, *c),
{
    if !c.is_desktop_app {
        return None;
    }
    let name = match present_text(&c.name) {
        Some(n) => n,
        None => {
            return None;
        },
    };
    let version = if c.releases.len() > 0 {
        Some(c.releases[0].version.clone())
    } else {
        None
    };
    // Screenshots.
    let mut shots: Vec<ScreenshotRecord> = Vec::new();
    let mut i: usize = 0;
    assert(shots@.map_values(|s: ScreenshotRecord| shot_view(s)) =~= stored_shots(
        c.screenshots@.take(0),
    ));
    while i < c.screenshots.len()
        invariant
            i <= c.screenshots@.len(),
            shots@.map_values(|s: ScreenshotRecord| shot_view(s)) == stored_shots(
                c.screenshots@.take(i as int),
            ),
        decreases c.screenshots@.len() - i,
    {
        let shot = &c.screenshots[i];
        proof {
            assert(c.screenshots@.take(i + 1 as int).drop_last() =~= c.screenshots@.take(i as int));
        }
        match pick_image(&shot.images) {
            Some(k) => {
                let rec = ScreenshotRecord {
                    url: shot.images[k].url.clone(),
                    caption: present_text(&shot.caption),
                    is_default: shot.is_default,
                    position: i as u64,
                };
                let ghost before = shots@;
                shots.push(rec);
                assert(shots@.map_values(|s: ScreenshotRecord| shot_view(s)) =~= before.map_values(
                    |s: ScreenshotRecord| shot_view(s),
                ).push(shot_view(rec)));
            },
            None => {},
        }
        i = i + 1;
    }
    assert(c.screenshots@.take(i as int) =~= c.screenshots@);
    // Releases, newest first, capped.
    let n = if c.releases.len() > RELEASES_KEPT {
        RELEASES_KEPT
    } else {
        c.releases.len()
    };
    let ghost kept = if c.releases@.len() > RELEASES_KEPT {
        c.releases@.take(RELEASES_KEPT as int)
    } else {
        c.releases@
    };
    let mut rels: Vec<ReleaseRecord> = Vec::new();
    let mut j: usize = 0;
    while j < n
        invariant
            n == kept.len(),
            n <= c.releases@.len(),
            kept == (if c.releases@.len() > RELEASES_KEPT {
                c.releases@.take(RELEASES_KEPT as int)
            } else {
                c.releases@
            }),
            j <= n,
            rels@.len() == j,
            forall|m: int|
                0 <= m < j ==> release_view(#[trigger] rels@[m]) == (
                    kept[m].version@,
                    kept[m].timestamp,
                    present(opt_view(kept[m].description)),
                    m,
                ),
        decreases n - j,
    {
        let rel = &c.releases[j];
        assert(kept[j as int] == c.releases@[j as int]);
        let rec = ReleaseRecord {
            version: rel.version.clone(),
            timestamp: rel.timestamp,
            description: present_text(&rel.description),
            position: j as u64,
        };
        rels.push(rec);
        j = j + 1;
    }
    assert(rels@.map_values(|s: ReleaseRecord| release_view(s)) =~= stored_releases(c.releases@));
    let rec = AppRecord {
        app_id: c.id.clone(),
        name,
        summary: present_text(&c.summary),
        description: present_text(&c.description),
        developer: present_text(&c.developer),
        license: match &c.license {
            Some(l) => Some(l.clone()),
            None => None,
        },
        version,
        categories: join_strings(&c.categories, ";"),
        keywords: join_strings(&c.keywords, " "),
        screenshots: shots,
        releases: rels,
    };
    Some(rec)
}

/// A stored backend name reads back as the backend it names.
pub proof fn law_stored_backend_reads_back(b: BackendId)
    ensures
        backend_of(backend_name(b)) == b,
{
    reveal_strlit("flatpak");
    reveal_strlit("packagekit");
    reveal_strlit("appimage");
    assert("packagekit"@[0] != "appimage"@[0] && "packagekit"@[0] != "flatpak"@[0]
        && "appimage"@[0] != "flatpak"@[0]);
}

/// Categories stored and read back come back as they were, less any empty
/// one, provided none holds the `;` that separates them.
pub proof fn law_stored_categories_read_back(cats: Seq<Seq<char>>)
    requires
        forall|i: int| 0 <= i < cats.len() ==> !(#[trigger] cats[i]).contains(';'),
    ensures
        list_items(split(join(cats, ";"@), ';')) == list_items(cats),
{
    if cats.len() == 0 {
        let one = seq![Seq::<char>::empty()];
        assert(split(join(cats, ";"@), ';') =~= one);
        assert(one.drop_last() =~= Seq::<Seq<char>>::empty());
        assert(one.last().len() == 0);
        assert(list_items(one) == list_items(one.drop_last()));
        assert(list_items(one) =~= Seq::<Seq<char>>::empty());
    } else {
        crate::text::lemma_split_join(cats);
    }
}

/// An indexed app, stored and read back, is the app its catalog entry
/// describes: a row holding what was stored for a component, under the
/// name of backend `b`, reads as an app of `b` with the component's id,
/// name, summary, description, developer, licence, newest version and
/// categories, provided no category holds the `;` that separates them.
pub proof fn law_stored_app_reads_back(c: ComponentInfo, record: AppRecord, b: BackendId, row: CatalogRow, app: App)
    requires
        record_is(record, c),
        forall|i: int| 0 <= i < c.categories@.len() ==> !(#[trigger] c.categories@[i])@.contains(';'),
        row.backend@ == backend_name(b),
        row.app_id@ == record.app_id@,
        row.name@ == record.name@,
        opt_view(row.summary) == opt_view(record.summary),
        opt_view(row.description) == opt_view(record.description),
        opt_view(row.developer) == opt_view(record.developer),
        opt_view(row.license) == opt_view(record.license),
        opt_view(row.version) == opt_view(record.version),
        row.categories@ == record.categories@,
        row_app(app, row),
    ensures
        app.app_ref.backend == b,
        app.app_ref.id@ == c.id@,
        Some(app.name@) == present(opt_view(c.name)),
        opt_view(app.summary) == present(opt_view(c.summary)),
        opt_view(app.description) == present(opt_view(c.description)),
        opt_view(app.developer) == present(opt_view(c.developer)),
        opt_view(app.license) == opt_view(c.license),
        opt_view(app.version) == (if c.releases@.len() > 0 {
            Some(c.releases@[0].version@)
        } else {
            None
        }),
        string_views(app.categories@) == list_items(string_views(c.categories@)),
{
    law_stored_backend_reads_back(b);
    let cats = string_views(c.categories@);
    assert forall|i: int| 0 <= i < cats.len() implies !(#[trigger] cats[i]).contains(';') by {
        assert(cats[i] == c.categories@[i]@);
    }
    law_stored_categories_read_back(cats);
}

} // verus!
