//! Merging what every usable package system reports into one list.
//!
//! A backend that is not installed is not an error: it is simply absent.
//! Partial failure is tolerated too, since one broken backend should not
//! blank the whole list; only when every backend fails and nothing at all
//! came back is there an error to show.

use vstd::prelude::*;
use crate::catalog::Filter;
use crate::desktop::opt_view;
use crate::error::Error;
use crate::text::{chars_of, join, join_strings, lowercase, string_views, to_lowercase};
use crate::types::{App, AppRef, BackendId, InstalledApp, backend_name};

verus! {

/// `a` sorts no later than `b`, character by character, a prefix first:
/// the order of strings, since UTF-8 keeps code point order.
pub open spec fn text_le(a: Seq<char>, b: Seq<char>) -> bool
    decreases a.len(),
{
    if a.len() == 0 {
        true
    } else if b.len() == 0 {
        false
    } else if a[0] != b[0] {
        a[0] < b[0]
    } else {
        text_le(a.drop_first(), b.drop_first())
    }
}

proof fn lemma_text_le_total(a: Seq<char>, b: Seq<char>)
    ensures
        text_le(a, b) || text_le(b, a),
    decreases a.len(),
{
    if a.len() > 0 && b.len() > 0 {
        if a[0] == b[0] {
            lemma_text_le_total(a.drop_first(), b.drop_first());
        }
    }
}

proof fn lemma_text_le_trans(a: Seq<char>, b: Seq<char>, c: Seq<char>)
    requires
        text_le(a, b),
        text_le(b, c),
    ensures
        text_le(a, c),
    decreases a.len(),
{
    if a.len() > 0 && b.len() > 0 && c.len() > 0 && a[0] == b[0] && b[0] == c[0] {
        lemma_text_le_trans(a.drop_first(), b.drop_first(), c.drop_first());
    }
}

/// Compare two texts in that order.
fn text_le_chars(a: &[char], b: &[char]) -> (r: bool)
    ensures
        r == text_le(a@, b@),
{
    let mut i: usize = 0;
    assert(a@.skip(0) =~= a@);
    assert(b@.skip(0) =~= b@);
    while i < a.len() && i < b.len() && a[i] == b[i]
        invariant
            i <= a@.len(),
            i <= b@.len(),
            text_le(a@.skip(i as int), b@.skip(i as int)) == text_le(a@, b@),
        decreases a@.len() - i,
    {
        assert(a@.skip(i as int).drop_first() =~= a@.skip(i + 1));
        assert(b@.skip(i as int).drop_first() =~= b@.skip(i + 1));
        i = i + 1;
    }
    if i == a.len() {
        assert(a@.skip(i as int).len() == 0);
        true
    } else if i == b.len() {
        assert(b@.skip(i as int).len() == 0);
        false
    } else {
        assert(a@.skip(i as int)[0] == a@[i as int]);
        assert(b@.skip(i as int)[0] == b@[i as int]);
        a[i] < b[i]
    }
}

/// The key an app list is sorted by: its name, lower-cased.
pub open spec fn name_key(app: App) -> Seq<char> {
    lowercase(app.name@)
}

/// Whether `a` may stand before `b` in a list sorted by name.
pub open spec fn name_le(a: App, b: App) -> bool {
    text_le(name_key(a), name_key(b))
}

/// `sorted` with `x` placed after every app that sorts no later than it.
pub open spec fn name_insert(sorted: Seq<App>, x: App) -> Seq<App>
    decreases sorted.len(),
{
    if sorted.len() == 0 || name_le(sorted.last(), x) {
        sorted.push(x)
    } else {
        name_insert(sorted.drop_last(), x).push(sorted.last())
    }
}

/// `apps` sorted by name; apps with the same key keep their order.
pub open spec fn in_name_order(apps: Seq<App>) -> Seq<App>
    decreases apps.len(),
{
    if apps.len() == 0 {
        apps
    } else {
        name_insert(in_name_order(apps.drop_last()), apps.last())
    }
}

proof fn lemma_name_insert_at(s: Seq<App>, x: App, j: int)
    requires
        0 <= j <= s.len(),
        forall|k: int| j <= k < s.len() ==> !name_le(#[trigger] s[k], x),
        j == 0 || name_le(s[j - 1], x),
    ensures
        name_insert(s, x) == s.take(j).push(x) + s.skip(j),
    decreases s.len() - j,
{
    if j == s.len() {
        assert(s.take(j) =~= s);
        assert(s.skip(j) =~= Seq::<App>::empty());
        assert(s.take(j).push(x) + s.skip(j) =~= s.push(x));
    } else {
        let t = s.drop_last();
        assert forall|k: int| j <= k < t.len() implies !name_le(#[trigger] t[k], x) by {
            assert(t[k] == s[k]);
        }
        if j > 0 {
            assert(t[j - 1] == s[j - 1]);
        }
        assert(!name_le(s[s.len() - 1], x));
        lemma_name_insert_at(t, x, j);
        assert(t.take(j) =~= s.take(j));
        assert(t.take(j).push(x) + t.skip(j) + seq![s.last()] =~= s.take(j).push(x) + s.skip(j));
    }
}

/// Sort apps by name, case-insensitively; apps that tie keep their order.
pub fn sort_by_name(apps: Vec<App>) -> (out: Vec<App>)
    ensures
        out@ == in_name_order(apps@),
{
    let ghost orig = apps@;
    let mut rest = apps;
    let mut out: Vec<App> = Vec::new();
    let mut keys: Vec<Vec<char>> = Vec::new();
    let ghost mut k: int = 0;
    assert(out@ =~= in_name_order(orig.take(0)));
    assert(rest@ =~= orig.skip(0));
    while rest.len() > 0
        invariant
            0 <= k <= orig.len(),
            out@ == in_name_order(orig.take(k)),
            rest@ == orig.skip(k),
            rest@.len() == orig.len() - k,
            keys@.len() == out@.len(),
            forall|m: int| 0 <= m < keys@.len() ==> (#[trigger] keys@[m])@ == name_key(out@[m]),
        decreases rest@.len(),
    {
        let ghost rest_before = rest@;
        let x = rest.remove(0);
        assert(orig[k] == x);
        let lower = to_lowercase(x.name.as_str());
        let kx = chars_of(lower.as_str());
        let ghost sorted = out@;
        let mut j = out.len();
        while j > 0 && !text_le_chars(&keys[j - 1], &kx)
            invariant
                j <= out@.len(),
                sorted == out@,
                keys@.len() == out@.len(),
                kx@ == name_key(x),
                forall|m: int| 0 <= m < keys@.len() ==> (#[trigger] keys@[m])@ == name_key(out@[m]),
                forall|m: int| j <= m < sorted.len() ==> !name_le(#[trigger] sorted[m], x),
            decreases j,
        {
            assert(keys@[j - 1]@ == name_key(sorted[j - 1]));
            j = j - 1;
        }
        proof {
            if j > 0 {
                assert(keys@[j - 1]@ == name_key(sorted[j - 1]));
            }
            lemma_name_insert_at(sorted, x, j as int);
            assert(orig.take(k + 1).drop_last() =~= orig.take(k));
            assert(orig.take(k + 1).last() == x);
        }
        let ghost keys_before = keys@;
        out.insert(j, x);
        keys.insert(j, kx);
        proof {
            assert(out@ =~= sorted.take(j as int).push(x) + sorted.skip(j as int));
            assert forall|m: int| 0 <= m < keys@.len() implies (#[trigger] keys@[m])@ == name_key(
                out@[m],
            ) by {
                if m < j {
                    assert(keys@[m] == keys_before[m]);
                    assert(out@[m] == sorted[m]);
                } else if m > j {
                    assert(keys@[m] == keys_before[m - 1]);
                    assert(out@[m] == sorted[m - 1]);
                }
            }
            assert(rest@ =~= rest_before.skip(1));
            k = k + 1;
            assert(rest@ =~= orig.skip(k));
        }
    }
    assert(orig.take(k) =~= orig);
    out
}

/// Whether `s` is sorted by name throughout.
pub open spec fn name_sorted(s: Seq<App>) -> bool {
    forall|i: int, j: int| 0 <= i < j < s.len() ==> name_le(#[trigger] s[i], #[trigger] s[j])
}

proof fn lemma_name_insert_multiset(s: Seq<App>, x: App)
    ensures
        name_insert(s, x).to_multiset() =~= s.to_multiset().insert(x),
    decreases s.len(),
{
    broadcast use vstd::seq_lib::group_to_multiset_ensures;
    if s.len() > 0 && !name_le(s.last(), x) {
        lemma_name_insert_multiset(s.drop_last(), x);
        assert(s.drop_last().push(s.last()) =~= s);
    }
}

proof fn lemma_name_insert_sorted(s: Seq<App>, x: App)
    requires
        name_sorted(s),
    ensures
        name_sorted(name_insert(s, x)),
    decreases s.len(),
{
    broadcast use vstd::seq_lib::group_to_multiset_ensures;
    let r = name_insert(s, x);
    if s.len() == 0 || name_le(s.last(), x) {
        assert forall|i: int, j: int| 0 <= i < j < r.len() implies name_le(#[trigger] r[i], #[trigger] r[j]) by {
            if j == s.len() && i < s.len() - 1 {
                assert(name_le(s[i], s[s.len() - 1]));
                lemma_text_le_trans(name_key(s[i]), name_key(s[s.len() - 1]), name_key(x));
            }
        }
    } else {
        let t = s.drop_last();
        let l = s.last();
        assert(name_sorted(t)) by {
            assert forall|i: int, j: int| 0 <= i < j < t.len() implies name_le(#[trigger] t[i], #[trigger] t[j]) by {
                assert(t[i] == s[i] && t[j] == s[j]);
            }
        }
        lemma_name_insert_sorted(t, x);
        lemma_name_insert_multiset(t, x);
        lemma_text_le_total(name_key(l), name_key(x));
        let r0 = name_insert(t, x);
        assert forall|i: int, j: int| 0 <= i < j < r.len() implies name_le(#[trigger] r[i], #[trigger] r[j]) by {
            if j == r0.len() {
                let v = r0[i];
                assert(r0.contains(v));
                if v != x {
                    assert(r0.to_multiset().count(v) > 0);
                    assert(t.to_multiset().count(v) > 0);
                    assert(t.contains(v));
                    let k = choose|k: int| 0 <= k < t.len() && t[k] == v;
                    assert(name_le(s[k], s[s.len() - 1]));
                }
            } else {
                assert(r[i] == r0[i] && r[j] == r0[j]);
            }
        }
    }
}

/// A merged list comes out sorted by name, case-insensitively.
pub proof fn law_merged_list_is_sorted_by_name(apps: Seq<App>)
    ensures
        name_sorted(in_name_order(apps)),
    decreases apps.len(),
{
    if apps.len() > 0 {
        law_merged_list_is_sorted_by_name(apps.drop_last());
        lemma_name_insert_sorted(in_name_order(apps.drop_last()), apps.last());
    }
}

/// Sorting by name neither drops, adds nor duplicates an app.
pub proof fn law_sorting_by_name_keeps_every_app(apps: Seq<App>)
    ensures
        in_name_order(apps).to_multiset() =~= apps.to_multiset(),
    decreases apps.len(),
{
    broadcast use vstd::seq_lib::group_to_multiset_ensures;
    if apps.len() > 0 {
        law_sorting_by_name_keeps_every_app(apps.drop_last());
        lemma_name_insert_multiset(in_name_order(apps.drop_last()), apps.last());
        assert(apps.drop_last().push(apps.last()) =~= apps);
    }
}

proof fn lemma_name_insert_filter(s: Seq<App>, x: App, k: Seq<char>)
    ensures
        name_insert(s, x).filter(|a: App| name_key(a) == k) == (if name_key(x) == k {
            s.filter(|a: App| name_key(a) == k).push(x)
        } else {
            s.filter(|a: App| name_key(a) == k)
        }),
    decreases s.len(),
{
    reveal(Seq::filter);
    let fk = |a: App| name_key(a) == k;
    if s.len() == 0 || name_le(s.last(), x) {
        assert(s.push(x).drop_last() =~= s);
    } else {
        let p = s.drop_last();
        let l = s.last();
        lemma_name_insert_filter(p, x, k);
        lemma_text_le_total(name_key(x), name_key(x));
        assert(name_key(l) != name_key(x));
        let ins = name_insert(p, x);
        assert(ins.push(l).drop_last() =~= ins);
        assert(name_insert(s, x) == ins.push(l));
        assert(s.filter(fk) == (if fk(l) { p.filter(fk).push(l) } else { p.filter(fk) }));
        if fk(x) {
            assert(p.filter(fk).push(x).drop_last() =~= p.filter(fk));
        }
    }
}

/// Sorting by name is stable: apps whose names are equal once lower-cased
/// come out in the order they came in, so on a merge the first backend's
/// copy stays first.
pub proof fn law_equal_names_keep_their_order(apps: Seq<App>, k: Seq<char>)
    ensures
        in_name_order(apps).filter(|a: App| name_key(a) == k) == apps.filter(|a: App| name_key(a) == k),
    decreases apps.len(),
{
    reveal(Seq::filter);
    if apps.len() == 0 {
        assert(apps.filter(|a: App| name_key(a) == k) =~= Seq::<App>::empty());
        assert(in_name_order(apps).filter(|a: App| name_key(a) == k) =~= Seq::<App>::empty());
    } else {
        law_equal_names_keep_their_order(apps.drop_last(), k);
        lemma_name_insert_filter(in_name_order(apps.drop_last()), apps.last(), k);
    }
}

/// The apps every backend reported, in backend order.
pub open spec fn reported_apps(results: Seq<Result<Vec<InstalledApp>, String>>) -> Seq<App>
    decreases results.len(),
{
    if results.len() == 0 {
        Seq::empty()
    } else {
        reported_apps(results.drop_last()) + match results.last() {
            Ok(found) => found@.map_values(|i: InstalledApp| i.app),
            Err(_) => Seq::empty(),
        }
    }
}

/// The messages of the backends that failed, in backend order.
pub open spec fn failures(results: Seq<Result<Vec<InstalledApp>, String>>) -> Seq<Seq<char>>
    decreases results.len(),
{
    if results.len() == 0 {
        Seq::empty()
    } else {
        failures(results.drop_last()) + match results.last() {
            Ok(_) => Seq::empty(),
            Err(e) => seq![e@],
        }
    }
}

/// Whether every backend failed: there was at least one, and each answered
/// with an error.
pub open spec fn every_query_failed(results: Seq<Result<Vec<InstalledApp>, String>>) -> bool {
    results.len() > 0 && forall|i: int| 0 <= i < results.len() ==> (#[trigger] results[i]) is Err
}

proof fn lemma_failures_len(results: Seq<Result<Vec<InstalledApp>, String>>)
    ensures
        failures(results).len() <= results.len(),
        (failures(results).len() == results.len()) == (forall|i: int|
            0 <= i < results.len() ==> (#[trigger] results[i]) is Err),
    decreases results.len(),
{
    if results.len() > 0 {
        let init = results.drop_last();
        lemma_failures_len(init);
        if failures(results).len() == results.len() {
            assert forall|i: int| 0 <= i < results.len() implies (#[trigger] results[i]) is Err by {
                if i < init.len() {
                    assert(init[i] == results[i]);
                }
            }
        }
        if forall|i: int| 0 <= i < results.len() ==> (#[trigger] results[i]) is Err {
            assert(results[results.len() - 1] is Err);
            assert forall|i: int| 0 <= i < init.len() implies (#[trigger] init[i]) is Err by {
                assert(init[i] == results[i]);
            }
        }
    }
}

/// Merge each backend's answer to one query. One failing backend does not
/// blank the list: only when every backend failed is the answer an error,
/// with every failure, one per line. Otherwise it is every app found,
/// sorted by name.
pub fn gather(results: Vec<Result<Vec<InstalledApp>, String>>) -> (r: Result<Vec<App>, String>)
    ensures
        every_query_failed(results@) ==> (r matches Err(e) && e@ == join(failures(results@), "\n"@)),
        !every_query_failed(results@) ==> (r matches Ok(v) && v@ == in_name_order(reported_apps(results@))),
{
    let queried = results.len();
    let ghost all = results@;
    let mut rest = results;
    let mut apps: Vec<App> = Vec::new();
    let mut errors: Vec<String> = Vec::new();
    let ghost mut k: int = 0;
    assert(all.take(0) =~= Seq::<Result<Vec<InstalledApp>, String>>::empty());
    assert(rest@ =~= all.skip(0));
    assert(string_views(errors@) =~= Seq::<Seq<char>>::empty());
    while rest.len() > 0
        invariant
            0 <= k <= all.len(),
            rest@ == all.skip(k),
            rest@.len() == all.len() - k,
            apps@ == reported_apps(all.take(k)),
            string_views(errors@) == failures(all.take(k)),
        decreases rest@.len(),
    {
        let ghost rest_before = rest@;
        let result = rest.remove(0);
        proof {
            assert(all[k] == result);
            assert(all.take(k + 1).drop_last() =~= all.take(k));
            assert(all.take(k + 1).last() == result);
        }
        match result {
            Ok(found) => {
                let ghost before = apps@;
                let ghost fv = found@;
                let mut found = found;
                let ghost mut m: int = 0;
                assert(found@ =~= fv.skip(0));
                assert(apps@ =~= before + fv.take(0).map_values(|i: InstalledApp| i.app));
                while found.len() > 0
                    invariant
                        0 <= m <= fv.len(),
                        found@ == fv.skip(m),
                        found@.len() == fv.len() - m,
                        apps@ == before + fv.take(m).map_values(|i: InstalledApp| i.app),
                    decreases found@.len(),
                {
                    let ghost fb = found@;
                    let ia = found.remove(0);
                    apps.push(ia.app);
                    proof {
                        assert(fv[m] == ia);
                        assert(fv.take(m + 1).map_values(|i: InstalledApp| i.app) =~= fv.take(
                            m,
                        ).map_values(|i: InstalledApp| i.app).push(ia.app));
                        m = m + 1;
                        assert(found@ =~= fv.skip(m));
                    }
                }
                assert(fv.take(m) =~= fv);
                assert(string_views(errors@) =~= failures(all.take(k + 1)));
            },
            Err(e) => {
                let ghost before = errors@;
                errors.push(e);
                assert(string_views(errors@) =~= string_views(before).push(e@));
                assert(apps@ =~= reported_apps(all.take(k + 1)));
            },
        }
        proof {
            assert(rest@ =~= rest_before.skip(1));
            k = k + 1;
            assert(rest@ =~= all.skip(k));
        }
    }
    assert(all.take(k) =~= all);
    proof {
        lemma_failures_len(all);
    }
    if queried > 0 && errors.len() == queried {
        return Err(join_strings(&errors, "\n"));
    }
    Ok(sort_by_name(apps))
}

/// Keep only the apps of one packaging format, when one is chosen.
pub fn apply_format_filter(apps: Vec<App>, format: Option<BackendId>) -> (out: Vec<App>)
    ensures
        format is None ==> out@ == apps@,
        format matches Some(b) ==> out@ == apps@.filter(|a: App| a.app_ref.backend == b),
{
    let backend = match format {
        None => {
            return apps;
        },
        Some(b) => b,
    };
    let ghost all = apps@;
    let mut rest = apps;
    let mut out: Vec<App> = Vec::new();
    let ghost mut k: int = 0;
    proof {
        assert(all.take(0).filter(|a: App| a.app_ref.backend == backend) =~= Seq::<App>::empty())
            by {
            reveal(Seq::filter);
        }
        assert(rest@ =~= all.skip(0));
    }
    while rest.len() > 0
        invariant
            0 <= k <= all.len(),
            rest@ == all.skip(k),
            rest@.len() == all.len() - k,
            out@ == all.take(k).filter(|a: App| a.app_ref.backend == backend),
        decreases rest@.len(),
    {
        let ghost rb = rest@;
        let app = rest.remove(0);
        proof {
            assert(all[k] == app);
            assert(all.take(k + 1).drop_last() =~= all.take(k));
            reveal(Seq::filter);
        }
        if app.app_ref.backend == backend {
            out.push(app);
        }
        proof {
            assert(rest@ =~= rb.skip(1));
            k = k + 1;
            assert(rest@ =~= all.skip(k));
        }
    }
    assert(all.take(k) =~= all);
    out
}

/// The catalog filter for a chosen packaging format.
pub fn filter_for(format: Option<BackendId>) -> (f: Filter)
    ensures
        opt_view(f.backend) == (match format {
            Some(b) => Some(backend_name(b)),
            None => None,
        }),
{
    match format {
        Some(b) => Filter { backend: Some(b.as_str().to_owned()) },
        None => Filter { backend: None },
    }
}

/// The label of a packaging format choice; `None` is every format.
pub fn format_option_label(option: Option<BackendId>) -> (s: &'static str)
    ensures
        s@ == (match option {
            Some(b) => crate::types::backend_display_name(b),
            None => "All formats"@,
        }),
{
    match option {
        Some(b) => b.badge_label(),
        None => "All formats",
    }
}

/// The format choices offered: every format, then each available one.
pub fn format_options(available: &Vec<BackendId>) -> (v: Vec<Option<BackendId>>)
    ensures
        v@.len() == available@.len() + 1,
        v@[0] is None,
        forall|i: int| 0 <= i < available@.len() ==> v@[i + 1] == Some(#[trigger] available@[i]),
{
    let mut v: Vec<Option<BackendId>> = Vec::new();
    v.push(None);
    let mut i: usize = 0;
    while i < available.len()
        invariant
            i <= available@.len(),
            v@.len() == i + 1,
            v@[0] is None,
            forall|m: int| 0 <= m < i ==> v@[m + 1] == Some(#[trigger] available@[m]),
        decreases available@.len() - i,
    {
        v.push(Some(available[i]));
        i = i + 1;
    }
    v
}

/// Fill in what a backend cannot say from the catalog's entry for the same
/// app: its icon, summary and developer where the backend has none, and its
/// name when the backend only knew the id. What the backend says wins
/// elsewhere, since it describes what is actually on disk.
pub fn enrich(app: App, entry: Option<App>) -> (r: App)
    ensures
        match entry {
            None => r == app,
            Some(e) => {
                &&& r.app_ref == app.app_ref
                &&& r.icon == (if app.icon is None {
                    e.icon
                } else {
                    app.icon
                })
                &&& r.summary == (if app.summary is None {
                    e.summary
                } else {
                    app.summary
                })
                &&& r.developer == (if app.developer is None {
                    e.developer
                } else {
                    app.developer
                })
                &&& r.name == (if app.name@ == app.app_ref.id@ {
                    e.name
                } else {
                    app.name
                })
                &&& r.description == app.description
                &&& r.license == app.license
                &&& r.categories == app.categories
                &&& r.screenshots == app.screenshots
                &&& r.releases == app.releases
                &&& r.version == app.version
                &&& r.download_size == app.download_size
                &&& r.installed_size == app.installed_size
                &&& r.sandbox == app.sandbox
            },
        },
{
    let entry = match entry {
        None => {
            return app;
        },
        Some(e) => e,
    };
    let mut app = app;
    if app.icon.is_none() {
        app.icon = entry.icon;
    }
    if app.summary.is_none() {
        app.summary = entry.summary;
    }
    if app.developer.is_none() {
        app.developer = entry.developer;
    }
    if app.name == app.app_ref.id {
        app.name = entry.name;
    }
    app
}

/// The error for an app whose backend is not usable on this machine: its
/// catalog was left over from before the backend went away.
pub fn missing_backend(app_ref: &AppRef) -> (e: Error)
    ensures
        e matches Error::BackendUnavailable { backend, reason } && backend@ == backend_name(
            app_ref.backend,
        ) && reason@ == "not available on this system"@,
{
    Error::BackendUnavailable {
        backend: app_ref.backend.as_str(),
        reason: "not available on this system".to_owned(),
    }
}

} // verus!
