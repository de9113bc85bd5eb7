//! Where the interface is, and what each place shows: destinations, page
//! titles, which catalog query fills a page, and how the home shelves share
//! out apps so no app appears on two of them.

use vstd::prelude::*;
use crate::desktop::opt_view;
use crate::text::{chars_of, eq_lit, push_str, string_of, trim, trim_chars};
use crate::types::App;

verus! {

/// Where the content area is.
#[derive(Debug, Clone, PartialEq, Eq)]
pub enum Destination {
    /// Featured shelves.
    Home,
    Installed,
    Updates,
    /// A category filter, by AppStream category name.
    Category(String),
}

/// The label of an AppStream category the sidebar offers, or "Apps".
pub open spec fn category_label_of(category: Seq<char>) -> Seq<char> {
    if category == "Game"@ {
        "Games"@
    } else if category == "AudioVideo"@ {
        "Audio & Video"@
    } else if category == "Graphics"@ {
        "Graphics & Design"@
    } else if category == "Development"@ {
        "Developer Tools"@
    } else if category == "Office"@ {
        "Productivity"@
    } else if category == "Education"@ {
        "Education"@
    } else if category == "Science"@ {
        "Science"@
    } else if category == "System"@ {
        "System"@
    } else if category == "Utility"@ {
        "Utilities"@
    } else {
        "Apps"@
    }
}

/// Human-readable name of an AppStream category, for page titles.
pub fn category_label(category: &str) -> (s: &'static str)
    ensures
        s@ == category_label_of(category@),
{
    let v = chars_of(category);
    if eq_lit(&v, "Game") {
        "Games"
    } else if eq_lit(&v, "AudioVideo") {
        "Audio & Video"
    } else if eq_lit(&v, "Graphics") {
        "Graphics & Design"
    } else if eq_lit(&v, "Development") {
        "Developer Tools"
    } else if eq_lit(&v, "Office") {
        "Productivity"
    } else if eq_lit(&v, "Education") {
        "Education"
    } else if eq_lit(&v, "Science") {
        "Science"
    } else if eq_lit(&v, "System") {
        "System"
    } else if eq_lit(&v, "Utility") {
        "Utilities"
    } else {
        "Apps"
    }
}

/// Whether a search is under way: the search text is more than whitespace.
pub open spec fn searching(search: Seq<char>) -> bool {
    trim(search).len() > 0
}

/// The page a destination shows, a search overriding it: typing is a
/// stronger signal of intent than the last thing clicked.
pub open spec fn page_of(search: Seq<char>, destination: Destination) -> Seq<char> {
    if searching(search) {
        "results"@
    } else {
        match destination {
            Destination::Home => "home"@,
            Destination::Installed => "installed"@,
            Destination::Updates => "updates"@,
            Destination::Category(_) => "results"@,
        }
    }
}

/// Which page the content area shows.
pub fn visible_page(search: &str, destination: &Destination) -> (s: &'static str)
    ensures
        s@ == page_of(search@, *destination),
{
    let t = trim_chars(&chars_of(search));
    if t.len() > 0 {
        return "results";
    }
    match destination {
        Destination::Home => "home",
        Destination::Installed => "installed",
        Destination::Updates => "updates",
        Destination::Category(_) => "results",
    }
}

/// Whether the home shelves are what is on screen.
pub fn browsing(search: &str, destination: &Destination) -> (b: bool)
    ensures
        b == (page_of(search@, *destination) == "home"@),
{
    let page = visible_page(search, destination);
    let v = chars_of(page);
    eq_lit(&v, "home")
}

/// The title over the content area.
pub fn page_title(search: &str, destination: &Destination) -> (s: String)
    ensures
        s@ == (if searching(search@) {
            "Results for \u{201c}"@ + trim(search@) + "\u{201d}"@
        } else {
            match *destination {
                Destination::Home => "Home"@,
                Destination::Installed => "Installed"@,
                Destination::Updates => "Updates"@,
                Destination::Category(c) => category_label_of(c@),
            }
        }),
{
    let t = trim_chars(&chars_of(search));
    if t.len() > 0 {
        let mut s = "Results for \u{201c}".to_owned();
        push_str(&mut s, string_of(&t).as_str());
        push_str(&mut s, "\u{201d}");
        return s;
    }
    match destination {
        Destination::Home => "Home".to_owned(),
        Destination::Installed => "Installed".to_owned(),
        Destination::Updates => "Updates".to_owned(),
        Destination::Category(c) => category_label(c.as_str()).to_owned(),
    }
}

/// How many apps Explore shows before a search or filter narrows it.
pub const BROWSE_LIMIT: usize = 200;

/// How many results a search shows.
pub const SEARCH_LIMIT: usize = 100;

/// Tiles per shelf: enough to fill the row and imply more beyond it.
pub const SHELF_LIMIT: usize = 16;

/// Hero cards; each downloads a full-size screenshot, so few.
pub const FEATURED_LIMIT: usize = 6;

/// The catalog query a content page runs.
#[derive(Debug, Clone)]
pub enum CatalogQuery {
    Browse { limit: usize },
    ByCategory { category: String, limit: usize },
    Search { term: String, limit: usize },
}

/// Search, filter by category, or browse, in that order of precedence.
pub fn catalog_query(query: &str, category: Option<String>) -> (q: CatalogQuery)
    ensures
        searching(query@) ==> (q matches CatalogQuery::Search { term, limit } && term@ == trim(
            query@,
        ) && limit == SEARCH_LIMIT),
        !searching(query@) && category is None ==> (q matches CatalogQuery::Browse { limit }
            && limit == BROWSE_LIMIT),
        !searching(query@) && category is Some ==> (q matches CatalogQuery::ByCategory {
            category: c,
            limit,
        } && c@ == opt_view(category).unwrap() && limit == BROWSE_LIMIT),
{
    let t = trim_chars(&chars_of(query));
    if t.len() > 0 {
        return CatalogQuery::Search { term: string_of(&t), limit: SEARCH_LIMIT };
    }
    match category {
        None => CatalogQuery::Browse { limit: BROWSE_LIMIT },
        Some(c) => CatalogQuery::ByCategory { category: c, limit: BROWSE_LIMIT },
    }
}

/// A home shelf: its title, and the category it shows, if it is a
/// category shelf at all.
pub struct ShelfSpec {
    pub title: &'static str,
    pub category: Option<&'static str>,
}

/// The home shelves, in display order. The first is built from its own
/// query rather than a category, so it has no "See all".
pub fn shelves() -> (v: Vec<ShelfSpec>)
    ensures
        v@.len() == 6,
        v@[0].title@ == "Recently updated"@ && v@[0].category is None,
        v@[1].title@ == "Games"@ && (v@[1].category matches Some(c) && c@ == "Game"@),
        v@[2].title@ == "Audio & Video"@ && (v@[2].category matches Some(c) && c@
            == "AudioVideo"@),
        v@[3].title@ == "Graphics & Design"@ && (v@[3].category matches Some(c) && c@
            == "Graphics"@),
        v@[4].title@ == "Developer Tools"@ && (v@[4].category matches Some(c) && c@
            == "Development"@),
        v@[5].title@ == "Productivity"@ && (v@[5].category matches Some(c) && c@
            == "Office"@),
{
    vec![
        ShelfSpec { title: "Recently updated", category: None },
        ShelfSpec { title: "Games", category: Some("Game") },
        ShelfSpec { title: "Audio & Video", category: Some("AudioVideo") },
        ShelfSpec { title: "Graphics & Design", category: Some("Graphics") },
        ShelfSpec { title: "Developer Tools", category: Some("Development") },
        ShelfSpec { title: "Productivity", category: Some("Office") },
    ]
}

/// The ids of a list of apps.
pub open spec fn ids_of(apps: Seq<App>) -> Seq<Seq<char>> {
    apps.map_values(|a: App| a.app_ref.id@)
}

/// The apps of `apps` not already on the page.
pub open spec fn unseen(apps: Seq<App>, seen: Set<Seq<char>>) -> Seq<App> {
    apps.filter(|a: App| !seen.contains(a.app_ref.id@))
}

/// What a shelf keeps of what its query returned: the first `limit` apps
/// not already on the page.
pub open spec fn shelf_row(apps: Seq<App>, seen: Set<Seq<char>>, limit: nat) -> Seq<App> {
    let fresh = unseen(apps, seen);
    if fresh.len() > limit {
        fresh.take(limit as int)
    } else {
        fresh
    }
}

/// The shelves, top to bottom, each claiming its apps for the page.
pub open spec fn shelf_rows(shelves: Seq<Seq<App>>, seen: Set<Seq<char>>, limit: nat) -> Seq<
    Seq<App>,
>
    decreases shelves.len(),
{
    if shelves.len() == 0 {
        Seq::empty()
    } else {
        let row = shelf_row(shelves[0], seen, limit);
        seq![row] + shelf_rows(shelves.drop_first(), seen + ids_of(row).to_set(), limit)
    }
}

/// Whether `id` is among `seen`.
fn seen_contains(seen: &Vec<String>, id: &String) -> (b: bool)
    ensures
        b == seen@.map_values(|s: String| s@).contains(id@),
{
    let ghost sv = seen@.map_values(|s: String| s@);
    let mut k: usize = 0;
    while k < seen.len()
        invariant
            sv == seen@.map_values(|s: String| s@),
            k <= seen@.len(),
            forall|m: int| 0 <= m < k ==> sv[m] != id@,
        decreases seen@.len() - k,
    {
        if seen[k] == *id {
            assert(sv[k as int] == id@);
            return true;
        }
        k = k + 1;
    }
    false
}

/// Share apps out between the shelves, given what each shelf's query
/// returned and the ids of the featured apps above them. Over-fetching and
/// then dropping what is already on the page keeps each shelf full; each
/// shelf keeps at most `limit`.
pub fn fill_shelves(featured_ids: Vec<String>, results: Vec<Vec<App>>, limit: usize) -> (rows: Vec<
    Vec<App>,
>)
    ensures
        rows@.map_values(|r: Vec<App>| r@) == shelf_rows(
            results@.map_values(|r: Vec<App>| r@),
            featured_ids@.map_values(|s: String| s@).to_set(),
            limit as nat,
        ),
{
    let ghost all = results@.map_values(|r: Vec<App>| r@);
    let ghost start = featured_ids@.map_values(|s: String| s@).to_set();
    let mut seen = featured_ids;
    let mut rest = results;
    let mut rows: Vec<Vec<App>> = Vec::new();
    let ghost mut k: int = 0;
    proof {
        assert(all.skip(0) =~= all);
        assert(rows@.map_values(|r: Vec<App>| r@) =~= Seq::<Seq<App>>::empty());
        assert(rest@.map_values(|r: Vec<App>| r@) =~= all.skip(0));
    }
    while rest.len() > 0
        invariant
            0 <= k <= all.len(),
            rest@.len() == all.len() - k,
            rest@.map_values(|r: Vec<App>| r@) == all.skip(k),
            rows@.map_values(|r: Vec<App>| r@) + shelf_rows(
                all.skip(k),
                seen@.map_values(|s: String| s@).to_set(),
                limit as nat,
            ) == shelf_rows(all, start, limit as nat),
        decreases rest@.len(),
    {
        let ghost rest_before = rest@;
        let ghost seen_set = seen@.map_values(|s: String| s@).to_set();
        let mut shelf = rest.remove(0);
        let ghost apps = shelf@;
        assert(rest_before.map_values(|r: Vec<App>| r@)[0] == apps);
        assert(all.skip(k)[0] == apps);
        let mut row: Vec<App> = Vec::new();
        let ghost mut taken: int = 0;
        proof {
            assert(apps.take(0).filter(|a: App| !seen_set.contains(a.app_ref.id@)) =~= Seq::<
                App,
            >::empty()) by {
                reveal(Seq::filter);
            }
            assert(shelf@ =~= apps.skip(0));
        }
        while shelf.len() > 0 && row.len() < limit
            invariant
                0 <= taken <= apps.len(),
                shelf@ == apps.skip(taken),
                seen_set == seen@.map_values(|s: String| s@).to_set(),
                row@ == unseen(apps.take(taken), seen_set),
                row@.len() <= limit,
            decreases shelf@.len(),
        {
            let ghost sb = shelf@;
            let app = shelf.remove(0);
            proof {
                assert(sb[0] == apps[taken]);
                assert(apps.take(taken + 1).drop_last() =~= apps.take(taken));
                reveal(Seq::filter);
            }
            let known = seen_contains(&seen, &app.app_ref.id);
            proof {
                assert(seen@.map_values(|s: String| s@).contains(app.app_ref.id@) == seen_set.contains(
                    app.app_ref.id@,
                ));
            }
            if !known {
                row.push(app);
            }
            proof {
                taken = taken + 1;
                assert(shelf@ =~= apps.skip(taken));
            }
        }
        proof {
            let fresh = unseen(apps, seen_set);
            lemma_unseen_prefix(apps, seen_set, taken);
            if shelf@.len() == 0 {
                assert(apps.take(taken) =~= apps);
            }
            assert(row@ == shelf_row(apps, seen_set, limit as nat));
        }
        // The shelf claims its apps.
        let ghost row_view = row@;
        let mut m: usize = 0;
        let ghost seen_before = seen@.map_values(|s: String| s@);
        while m < row.len()
            invariant
                row@ == row_view,
                m <= row@.len(),
                seen@.map_values(|s: String| s@) == seen_before + ids_of(row_view).take(m as int),
            decreases row@.len() - m,
        {
            let id = row[m].app_ref.id.clone();
            let ghost sv = seen@;
            seen.push(id);
            proof {
                assert(seen@.map_values(|s: String| s@) =~= sv.map_values(|s: String| s@).push(
                    id@,
                ));
                assert(ids_of(row_view).take(m + 1) =~= ids_of(row_view).take(m as int).push(
                    row_view[m as int].app_ref.id@,
                ));
            }
            m = m + 1;
        }
        proof {
            assert(ids_of(row_view).take(m as int) =~= ids_of(row_view));
            assert((seen_before + ids_of(row_view)).to_set() =~= seen_set + ids_of(
                row_view,
            ).to_set()) by {
                vstd::seq_lib::seq_to_set_distributes_over_add(seen_before, ids_of(row_view));
            }
        }
        let ghost rows_before = rows@.map_values(|r: Vec<App>| r@);
        rows.push(row);
        proof {
            assert(rows@.map_values(|r: Vec<App>| r@) =~= rows_before.push(row_view));
            assert(all.skip(k).drop_first() =~= all.skip(k + 1));
            assert(rest@ =~= rest_before.skip(1));
            k = k + 1;
            assert(rest@.map_values(|r: Vec<App>| r@) =~= all.skip(k));
            assert(rows_before.push(row_view) + shelf_rows(
                all.skip(k),
                seen@.map_values(|s: String| s@).to_set(),
                limit as nat,
            ) =~= rows_before + shelf_rows(all.skip(k - 1), seen_set, limit as nat));
        }
    }
    proof {
        assert(all.skip(k) =~= Seq::<Seq<App>>::empty());
        assert(rows@.map_values(|r: Vec<App>| r@) + Seq::<Seq<App>>::empty() =~= rows@.map_values(
            |r: Vec<App>| r@,
        ));
    }
    rows
}

/// Taking apps while fewer than `limit` are kept gives the first ones.
proof fn lemma_unseen_prefix(apps: Seq<App>, seen: Set<Seq<char>>, n: int)
    requires
        0 <= n <= apps.len(),
    ensures
        unseen(apps, seen).len() >= unseen(apps.take(n), seen).len(),
        unseen(apps.take(n), seen) =~= unseen(apps, seen).take(unseen(apps.take(n), seen).len() as int),
    decreases apps.len() - n,
{
    reveal(Seq::filter);
    if n < apps.len() {
        lemma_unseen_prefix(apps, seen, n + 1);
        assert(apps.take(n + 1).drop_last() =~= apps.take(n));
    } else {
        assert(apps.take(n) =~= apps);
    }
}

/// Whether no app of `row` is listed under an id in `seen`.
pub open spec fn avoids(row: Seq<App>, seen: Set<Seq<char>>) -> bool {
    forall|a: int| 0 <= a < row.len() ==> !seen.contains(#[trigger] row[a].app_ref.id@)
}

proof fn lemma_shelf_row_avoids(apps: Seq<App>, seen: Set<Seq<char>>, limit: nat)
    ensures
        avoids(shelf_row(apps, seen, limit), seen),
        shelf_row(apps, seen, limit).len() <= limit,
{
    let pred = |a: App| !seen.contains(a.app_ref.id@);
    apps.filter_lemma(pred);
    let fresh = unseen(apps, seen);
    let row = shelf_row(apps, seen, limit);
    assert forall|a: int| 0 <= a < row.len() implies !seen.contains(#[trigger] row[a].app_ref.id@) by {
        assert(row[a] == fresh[a]);
        assert(pred(fresh[a]));
    }
}

/// The home page never shows an app twice: no shelf holds an app the
/// featured cards show, no two shelves share an app, and no shelf holds
/// more than `limit` apps.
pub proof fn law_shelves_share_no_app(shelves: Seq<Seq<App>>, featured: Set<Seq<char>>, limit: nat)
    ensures
        forall|i: int|
            0 <= i < shelf_rows(shelves, featured, limit).len() ==> (#[trigger] shelf_rows(
                shelves,
                featured,
                limit,
            )[i]).len() <= limit,
        forall|i: int|
            0 <= i < shelf_rows(shelves, featured, limit).len() ==> avoids(
                #[trigger] shelf_rows(shelves, featured, limit)[i],
                featured,
            ),
        forall|i: int, j: int, a: int, b: int|
            0 <= i < j < shelf_rows(shelves, featured, limit).len() && 0 <= a < shelf_rows(
                shelves,
                featured,
                limit,
            )[i].len() && 0 <= b < shelf_rows(shelves, featured, limit)[j].len() ==> (
            #[trigger] shelf_rows(shelves, featured, limit)[i][a]).app_ref.id@ != (
            #[trigger] shelf_rows(shelves, featured, limit)[j][b]).app_ref.id@,
    decreases shelves.len(),
{
    if shelves.len() > 0 {
        let row = shelf_row(shelves[0], featured, limit);
        let next = featured + ids_of(row).to_set();
        let rest = shelf_rows(shelves.drop_first(), next, limit);
        let rows = shelf_rows(shelves, featured, limit);
        lemma_shelf_row_avoids(shelves[0], featured, limit);
        law_shelves_share_no_app(shelves.drop_first(), next, limit);
        assert(rows =~= seq![row] + rest);
        assert forall|i: int| 0 <= i < rows.len() implies avoids(#[trigger] rows[i], featured) by {
            if i > 0 {
                assert(rows[i] == rest[i - 1]);
                assert(avoids(rest[i - 1], next));
            }
        }
        assert forall|i: int, j: int, a: int, b: int|
            0 <= i < j < rows.len() && 0 <= a < rows[i].len() && 0 <= b < rows[j].len() implies (
            #[trigger] rows[i][a]).app_ref.id@ != (#[trigger] rows[j][b]).app_ref.id@ by {
            assert(rows[j] == rest[j - 1]);
            assert(avoids(rest[j - 1], next));
            assert(!next.contains(rest[j - 1][b].app_ref.id@));
            if i == 0 {
                assert(ids_of(row)[a] == row[a].app_ref.id@);
                assert(ids_of(row).contains(row[a].app_ref.id@));
            } else {
                assert(rows[i] == rest[i - 1]);
            }
        }
        assert forall|i: int| 0 <= i < rows.len() implies (#[trigger] rows[i]).len() <= limit by {
            if i > 0 {
                assert(rows[i] == rest[i - 1]);
            }
        }
    }
}

/// What a screenshot run asks for: where to write the picture, which view
/// to show, and how long to let the window fill in first.
#[derive(Debug, Clone)]
pub struct Request {
    pub path: String,
    pub view: String,
    pub delay_seconds: u32,
}

impl Request {
    /// The destination the capture wants, if not the default.
    pub fn destination(&self) -> (d: Option<Destination>)
        ensures
            self.view@ == "installed"@ ==> d matches Some(Destination::Installed),
            self.view@ == "updates"@ ==> d matches Some(Destination::Updates),
            self.view@ == "games"@ ==> (d matches Some(Destination::Category(c)) && c@
                == "Game"@),
            !(self.view@ == "installed"@ || self.view@ == "updates"@ || self.view@ == "games"@)
                ==> d is None,
    {
        proof {
            reveal_strlit("installed");
            reveal_strlit("updates");
            reveal_strlit("games");
            assert("updates"@ != "installed"@) by {
                assert("updates"@.len() != "installed"@.len());
            }
            assert("games"@ != "installed"@) by {
                assert("games"@.len() != "installed"@.len());
            }
            assert("games"@ != "updates"@) by {
                assert("games"@.len() != "updates"@.len());
            }
        }
        let v = chars_of(self.view.as_str());
        if eq_lit(&v, "installed") {
            Some(Destination::Installed)
        } else if eq_lit(&v, "updates") {
            Some(Destination::Updates)
        } else if eq_lit(&v, "games") {
            Some(Destination::Category("Game".to_owned()))
        } else {
            None
        }
    }
}

/// A capture request, or the absence of one.
#[derive(Debug)]
pub struct Job(pub Option<Request>);

impl Job {
    pub fn none() -> (j: Job)
        ensures
            j.0 is None,
    {
        Job(None)
    }

    pub fn is_some(&self) -> (b: bool)
        ensures
            b == self.0 is Some,
    {
        self.0.is_some()
    }

    pub fn into_request(self) -> (r: Option<Request>)
        ensures
            r == self.0,
    {
        self.0
    }

    pub fn request(&self) -> (r: Option<&Request>)
        ensures
            match (r, self.0) {
                (Some(a), Some(b)) => *a == b,
                (None, None) => true,
                _ => false,
            },
    {
        match &self.0 {
            Some(r) => Some(r),
            None => None,
        }
    }
}

/// The value of the decimal digits `d`.
pub open spec fn digits_value(d: Seq<char>) -> nat
    decreases d.len(),
{
    if d.len() == 0 {
        0
    } else {
        digits_value(d.drop_last()) * 10 + ((d.last() as nat) - ('0' as nat)) as nat
    }
}

/// Whether every character of `d` is an ASCII digit.
pub open spec fn all_digits(d: Seq<char>) -> bool {
    forall|i: int| 0 <= i < d.len() ==> '0' <= #[trigger] d[i] <= '9'
}

/// `str::parse::<u32>`: an optional `+`, then one or more digits, whose
/// value fits.
pub open spec fn parsed_u32(s: Seq<char>) -> Option<u32> {
    let d = if s.len() > 0 && s[0] == '+' {
        s.drop_first()
    } else {
        s
    };
    if d.len() > 0 && all_digits(d) && digits_value(d) <= u32::MAX {
        Some(digits_value(d) as u32)
    } else {
        None
    }
}

proof fn lemma_digits_grow(d: Seq<char>, n: int)
    requires
        0 <= n <= d.len(),
        all_digits(d),
    ensures
        digits_value(d.take(n)) <= digits_value(d),
    decreases d.len() - n,
{
    if n < d.len() {
        lemma_digits_grow(d, n + 1);
        assert(d.take(n + 1).drop_last() =~= d.take(n));
        assert('0' <= d[n] <= '9');
    } else {
        assert(d.take(n) =~= d);
    }
}

/// Read an unsigned number as `str::parse::<u32>` does.
pub fn parse_u32(s: &str) -> (r: Option<u32>)
    ensures
        r == parsed_u32(s@),
{
    let v = chars_of(s);
    let start: usize = if v.len() > 0 && v[0] == '+' {
        1
    } else {
        0
    };
    let ghost d = v@.skip(start as int);
    assert(d =~= (if v@.len() > 0 && v@[0] == '+' {
        v@.drop_first()
    } else {
        v@
    }));
    if start >= v.len() {
        return None;
    }
    let mut acc: u64 = 0;
    let mut i: usize = start;
    assert(d.take(0) =~= Seq::<char>::empty());
    while i < v.len()
        invariant
            v@ == s@,
            start <= i <= v@.len(),
            d == v@.skip(start as int),
            d == (if v@.len() > 0 && v@[0] == '+' {
                v@.drop_first()
            } else {
                v@
            }),
            all_digits(d.take(i - start)),
            acc == digits_value(d.take(i - start)),
            acc <= u32::MAX,
        decreases v@.len() - i,
    {
        let c = v[i];
        assert(d[i - start] == c);
        if c < '0' || c > '9' {
            assert(!all_digits(d));
            return None;
        }
        let digit = (c as u32 - '0' as u32) as u64;
        proof {
            assert(d.take(i - start + 1).drop_last() =~= d.take(i - start));
            assert(d.take(i - start + 1).last() == c);
            assert(all_digits(d.take(i - start + 1)));
        }
        acc = acc * 10 + digit;
        if acc > 0xffff_ffff {
            proof {
                if all_digits(d) {
                    lemma_digits_grow(d, i - start + 1);
                }
            }
            return None;
        }
        i = i + 1;
    }
    assert(d.take(i - start) =~= d);
    Some(acc as u32)
}

/// The delay before a capture: the configured number of seconds, or eight
/// when none is configured or it does not read as a number.
pub fn capture_delay(value: Option<&str>) -> (n: u32)
    ensures
        n == (match value {
            Some(v) => match parsed_u32(v@) {
                Some(k) => k,
                None => 8,
            },
            None => 8,
        }),
{
    match value {
        Some(v) => match parse_u32(v) {
            Some(k) => k,
            None => 8,
        },
        None => 8,
    }
}

} // verus!
