//! What an install will actually do, worked out before anything is
//! downloaded.
//!
//! "Install" is not one thing. A 12 MB app can pull a 350 MB runtime; a deb
//! can pull forty dependencies. An [`InstallPlan`] is the resolved answer:
//! the packaging format, where it comes from, every item that will be
//! fetched, and what each one costs.

use vstd::prelude::*;
use crate::text::{chars_of, eq_lit, push_str, split, split_chars, string_of};

verus! {

/// One thing that will be downloaded and installed.
#[derive(Debug, Clone)]
pub struct PlanItem {
    /// Identifier, e.g. `org.gnome.Calculator` or `org.gnome.Platform`.
    pub id: String,
    /// Human-facing name, where the backend can give one.
    pub name: String,
    /// Shared runtimes and extensions, as opposed to the app itself.
    pub is_runtime: bool,
    pub download_size: u64,
    pub installed_size: u64,
}

/// A plan item with its text as plain characters.
pub struct PlanItemView {
    pub id: Seq<char>,
    pub name: Seq<char>,
    pub is_runtime: bool,
    pub download_size: u64,
    pub installed_size: u64,
}

impl View for PlanItem {
    type V = PlanItemView;

    open spec fn view(&self) -> PlanItemView {
        PlanItemView {
            id: self.id@,
            name: self.name@,
            is_runtime: self.is_runtime,
            download_size: self.download_size,
            installed_size: self.installed_size,
        }
    }
}

/// The items of a list, each as plain characters.
pub open spec fn item_views(items: Seq<PlanItem>) -> Seq<PlanItemView> {
    items.map_values(|i: PlanItem| i@)
}

/// The complete effect of installing one app.
#[derive(Debug, Clone)]
pub struct InstallPlan {
    /// Packaging format, e.g. "Flatpak". Shown verbatim.
    pub format: &'static str,
    /// Where it comes from — remote, repository, or archive.
    pub source: Option<String>,
    /// Everything to be fetched, the app first.
    pub items: Vec<PlanItem>,
}

/// Total bytes to download.
pub open spec fn total_download(items: Seq<PlanItemView>) -> nat
    decreases items.len(),
{
    if items.len() == 0 {
        0
    } else {
        total_download(items.drop_last()) + items.last().download_size as nat
    }
}

/// Total bytes on disk after install.
pub open spec fn total_installed(items: Seq<PlanItemView>) -> nat
    decreases items.len(),
{
    if items.len() == 0 {
        0
    } else {
        total_installed(items.drop_last()) + items.last().installed_size as nat
    }
}

/// Whether an item is a runtime or extension riding along.
pub open spec fn is_dependency(i: PlanItemView) -> bool {
    i.is_runtime
}

/// "Flatpak from Flathub", or just the format when the source is unknown.
pub open spec fn provenance_text(format: Seq<char>, source: Option<Seq<char>>) -> Seq<char> {
    match source {
        Some(s) => format + " from "@ + s,
        None => format,
    }
}

impl InstallPlan {
    /// Whether both totals fit in 64 bits.
    pub fn sizes_fit(&self) -> (b: bool)
        ensures
            b == (total_download(item_views(self.items@)) <= u64::MAX
                && total_installed(item_views(self.items@)) <= u64::MAX),
    {
        let n = self.items.len();
        let mut down: u64 = 0;
        let mut inst: u64 = 0;
        let mut i: usize = 0;
        while i < n
            invariant
                n == self.items@.len(),
                i <= n,
                down == total_download(item_views(self.items@).take(i as int)),
                inst == total_installed(item_views(self.items@).take(i as int)),
            decreases n - i,
        {
            let item = &self.items[i];
            proof {
                let t = item_views(self.items@).take(i + 1 as int);
                assert(t.drop_last() =~= item_views(self.items@).take(i as int));
                assert(t.last() == item@);
                lemma_totals_monotone(item_views(self.items@), i + 1 as int);
            }
            match (down.checked_add(item.download_size), inst.checked_add(item.installed_size)) {
                (Some(d), Some(s)) => {
                    down = d;
                    inst = s;
                },
                _ => {
                    return false;
                },
            }
            i = i + 1;
        }
        assert(item_views(self.items@).take(n as int) =~= item_views(self.items@));
        true
    }

    /// Total bytes to download.
    pub fn download_size(&self) -> (n: u64)
        requires
            total_download(item_views(self.items@)) <= u64::MAX,
        ensures
            n == total_download(item_views(self.items@)),
    {
        let len = self.items.len();
        let mut total: u64 = 0;
        let mut i: usize = 0;
        while i < len
            invariant
                len == self.items@.len(),
                i <= len,
                total_download(item_views(self.items@)) <= u64::MAX,
                total == total_download(item_views(self.items@).take(i as int)),
            decreases len - i,
        {
            proof {
                let t = item_views(self.items@).take(i + 1 as int);
                assert(t.drop_last() =~= item_views(self.items@).take(i as int));
                assert(t.last() == self.items@[i as int]@);
                lemma_totals_monotone(item_views(self.items@), i + 1 as int);
            }
            total = total + self.items[i].download_size;
            i = i + 1;
        }
        assert(item_views(self.items@).take(len as int) =~= item_views(self.items@));
        total
    }

    /// Total bytes on disk after install.
    pub fn installed_size(&self) -> (n: u64)
        requires
            total_installed(item_views(self.items@)) <= u64::MAX,
        ensures
            n == total_installed(item_views(self.items@)),
    {
        let len = self.items.len();
        let mut total: u64 = 0;
        let mut i: usize = 0;
        while i < len
            invariant
                len == self.items@.len(),
                i <= len,
                total_installed(item_views(self.items@)) <= u64::MAX,
                total == total_installed(item_views(self.items@).take(i as int)),
            decreases len - i,
        {
            proof {
                let t = item_views(self.items@).take(i + 1 as int);
                assert(t.drop_last() =~= item_views(self.items@).take(i as int));
                assert(t.last() == self.items@[i as int]@);
                lemma_totals_monotone(item_views(self.items@), i + 1 as int);
            }
            total = total + self.items[i].installed_size;
            i = i + 1;
        }
        assert(item_views(self.items@).take(len as int) =~= item_views(self.items@));
        total
    }

    /// Both totals, the download and the size on disk, when each fits in
    /// 64 bits; `None` when either would overflow.
    pub fn checked_sizes(&self) -> (r: Option<(u64, u64)>)
        ensures
            r is Some <==> (total_download(item_views(self.items@)) <= u64::MAX
                && total_installed(item_views(self.items@)) <= u64::MAX),
            r matches Some((down, disk)) ==> down == total_download(item_views(self.items@))
                && disk == total_installed(item_views(self.items@)),
    {
        if self.sizes_fit() {
            Some((self.download_size(), self.installed_size()))
        } else {
            None
        }
    }

    /// Extra items beyond the app itself — the surprise in "this is a 12 MB
    /// app".
    pub fn dependencies(&self) -> (out: Vec<&PlanItem>)
        ensures
            out@.map_values(|i: &PlanItem| i@) == item_views(self.items@).filter(|i: PlanItemView| is_dependency(i)),
    {
        let n = self.items.len();
        let mut out: Vec<&PlanItem> = Vec::new();
        let mut i: usize = 0;
        assert(item_views(self.items@).take(0).filter(|i: PlanItemView| is_dependency(i)) =~= Seq::<PlanItemView>::empty()) by {
            reveal(Seq::filter);
        }
        assert(out@.map_values(|i: &PlanItem| i@) =~= Seq::<PlanItemView>::empty());
        while i < n
            invariant
                n == self.items@.len(),
                i <= n,
                out@.map_values(|i: &PlanItem| i@)
                    == item_views(self.items@).take(i as int).filter(|i: PlanItemView| is_dependency(i)),
            decreases n - i,
        {
            let item = &self.items[i];
            let ghost before = out@;
            proof {
                let t = item_views(self.items@).take(i + 1 as int);
                assert(t.drop_last() =~= item_views(self.items@).take(i as int));
                assert(t.last() == item@);
                reveal(Seq::filter);
            }
            if item.is_runtime {
                out.push(item);
                assert(out@.map_values(|i: &PlanItem| i@) =~= before.map_values(|i: &PlanItem| i@).push(item@));
            }
            i = i + 1;
        }
        assert(item_views(self.items@).take(n as int) =~= item_views(self.items@));
        out
    }

    /// Whether anything beyond the app itself will be fetched.
    pub fn has_dependencies(&self) -> (b: bool)
        ensures
            b == exists|i: int| 0 <= i < self.items@.len() && #[trigger] self.items@[i].is_runtime,
    {
        let n = self.items.len();
        let mut i: usize = 0;
        while i < n
            invariant
                n == self.items@.len(),
                i <= n,
                forall|j: int| 0 <= j < i ==> !(#[trigger] self.items@[j]).is_runtime,
            decreases n - i,
        {
            if self.items[i].is_runtime {
                return true;
            }
            i = i + 1;
        }
        false
    }

    /// One-line summary: "Flatpak from Flathub".
    pub fn provenance(&self) -> (s: String)
        ensures
            s@ == provenance_text(self.format@, match self.source {
                Some(x) => Some(x@),
                None => None,
            }),
    {
        let mut s = self.format.to_owned();
        if let Some(source) = &self.source {
            push_str(&mut s, " from ");
            push_str(&mut s, source.as_str());
        }
        s
    }
}

proof fn lemma_totals_monotone(items: Seq<PlanItemView>, k: int)
    requires
        0 <= k <= items.len(),
    ensures
        total_download(items.take(k)) <= total_download(items),
        total_installed(items.take(k)) <= total_installed(items),
    decreases items.len() - k,
{
    if k < items.len() {
        lemma_totals_monotone(items.drop_last(), k);
        assert(items.drop_last().take(k) =~= items.take(k));
        if k == items.len() - 1 {
            assert(items.take(k) =~= items.drop_last());
        }
    } else {
        assert(items.take(k) =~= items);
    }
}


/// The last `.`-separated segment of a dotted id.
pub open spec fn last_segment(id: Seq<char>) -> Seq<char> {
    split(id, '.').last()
}

/// The second `.`-separated segment of a dotted id — the vendor in
/// `org.gnome.Platform` — or nothing.
pub open spec fn vendor_segment(id: Seq<char>) -> Seq<char> {
    if split(id, '.').len() > 1 { split(id, '.')[1] } else { Seq::empty() }
}

/// A runtime id made readable: `org.gnome.Platform` at branch `48` reads
/// "GNOME Platform 48".
pub open spec fn friendly(id: Seq<char>, branch: Seq<char>) -> Seq<char> {
    let last = last_segment(id);
    let vendor = vendor_segment(id);
    let base = if vendor == "gnome"@ {
        "GNOME "@ + last
    } else if vendor == "kde"@ {
        "KDE "@ + last
    } else if vendor == "freedesktop"@ {
        "Freedesktop "@ + last
    } else {
        last
    };
    if branch.len() == 0 { base } else { base + " "@ + branch }
}

proof fn lemma_split_nonempty(s: Seq<char>, c: char)
    ensures
        split(s, c).len() >= 1,
    decreases s.len(),
{
    if s.len() > 0 {
        lemma_split_nonempty(s.drop_last(), c);
    }
}

/// Turn a runtime id into something readable.
pub fn friendly_name(id: &str, branch: &str) -> (s: String)
    ensures
        s@ == friendly(id@, branch@),
{
    let v = chars_of(id);
    let parts = split_chars(&v, '.');
    proof {
        lemma_split_nonempty(id@, '.');
    }
    let last = string_of(&parts[parts.len() - 1]);
    let vendor: &[char] = if parts.len() > 1 { parts[1].as_slice() } else { &[] };
    assert(vendor@ == vendor_segment(id@));
    let mut base = if eq_lit(vendor, "gnome") {
        "GNOME ".to_owned()
    } else if eq_lit(vendor, "kde") {
        "KDE ".to_owned()
    } else if eq_lit(vendor, "freedesktop") {
        "Freedesktop ".to_owned()
    } else {
        String::new()
    };
    push_str(&mut base, last.as_str());
    let b = chars_of(branch);
    if b.len() > 0 {
        push_str(&mut base, " ");
        push_str(&mut base, branch);
    }
    base
}

/// The `/`-separated piece `i` of a ref, or nothing.
pub open spec fn ref_part(r: Seq<char>, i: int) -> Seq<char> {
    if i < split(r, '/').len() { split(r, '/')[i] } else { Seq::empty() }
}

/// The plan item one operation of a resolved transaction amounts to.
/// Refs are `kind/id/arch/branch`; anything not `app/` is a runtime, locale
/// or debug extension riding along.
pub open spec fn item_from_ref(r: Seq<char>, download: u64, installed: u64) -> PlanItemView {
    PlanItemView {
        id: ref_part(r, 1),
        name: friendly(ref_part(r, 1), ref_part(r, 3)),
        is_runtime: ref_part(r, 0) != "app"@,
        download_size: download,
        installed_size: installed,
    }
}

/// Build the plan item for one resolved operation.
pub fn plan_item_from_ref(op_ref: &str, download_size: u64, installed_size: u64) -> (item: PlanItem)
    ensures
        item@ == item_from_ref(op_ref@, download_size, installed_size),
{
    let v = chars_of(op_ref);
    let parts = split_chars(&v, '/');
    proof {
        lemma_split_nonempty(op_ref@, '/');
    }
    let kind: &[char] = parts[0].as_slice();
    let id = if parts.len() > 1 { string_of(&parts[1]) } else { String::new() };
    let branch = if parts.len() > 3 { string_of(&parts[3]) } else { String::new() };
    assert(id@ == ref_part(op_ref@, 1));
    assert(branch@ == ref_part(op_ref@, 3));
    let name = friendly_name(id.as_str(), branch.as_str());
    PlanItem { name, id, is_runtime: !eq_lit(kind, "app"), download_size, installed_size }
}

/// The order a plan is read in: the app before its dependencies, then the
/// largest download first.
pub open spec fn plan_le(a: PlanItemView, b: PlanItemView) -> bool {
    (!a.is_runtime && b.is_runtime) || (a.is_runtime == b.is_runtime && a.download_size >= b.download_size)
}

/// `sorted` with `x` inserted after every item that precedes or ties with it.
pub open spec fn insert_in_order(sorted: Seq<PlanItemView>, x: PlanItemView) -> Seq<PlanItemView>
    decreases sorted.len(),
{
    if sorted.len() == 0 || plan_le(sorted.last(), x) {
        sorted.push(x)
    } else {
        insert_in_order(sorted.drop_last(), x).push(sorted.last())
    }
}

/// `items` in plan order; items that tie keep their relative order (a
/// stable sort by `plan_le`).
pub open spec fn in_plan_order(items: Seq<PlanItemView>) -> Seq<PlanItemView>
    decreases items.len(),
{
    if items.len() == 0 {
        items
    } else {
        insert_in_order(in_plan_order(items.drop_last()), items.last())
    }
}

proof fn lemma_insert_at(s: Seq<PlanItemView>, x: PlanItemView, j: int)
    requires
        0 <= j <= s.len(),
        forall|k: int| j <= k < s.len() ==> !plan_le(#[trigger] s[k], x),
        j == 0 || plan_le(s[j - 1], x),
    ensures
        insert_in_order(s, x) == s.take(j).push(x) + s.skip(j),
    decreases s.len() - j,
{
    if j == s.len() {
        assert(s.take(j) =~= s);
        assert(s.skip(j) =~= Seq::<PlanItemView>::empty());
        assert(s.take(j).push(x) + s.skip(j) =~= s.push(x));
    } else {
        let t = s.drop_last();
        assert forall|k: int| j <= k < t.len() implies !plan_le(#[trigger] t[k], x) by {
            assert(t[k] == s[k]);
        }
        if j > 0 {
            assert(t[j - 1] == s[j - 1]);
        }
        assert(!plan_le(s[s.len() - 1], x));
        lemma_insert_at(t, x, j);
        assert(t.take(j) =~= s.take(j));
        assert(t.take(j).push(x) + t.skip(j) + seq![s.last()] =~= s.take(j).push(x) + s.skip(j));
    }
}

/// Put plan items in reading order: the app first, then the largest
/// dependencies. Items that tie keep their relative order.
pub fn order_plan_items(items: Vec<PlanItem>) -> (out: Vec<PlanItem>)
    ensures
        item_views(out@) == in_plan_order(item_views(items@)),
{
    let ghost orig = item_views(items@);
    let mut rest = items;
    let mut out: Vec<PlanItem> = Vec::new();
    let ghost mut k: int = 0;
    assert(item_views(out@) =~= in_plan_order(orig.take(0)));
    assert(item_views(rest@) =~= orig.skip(0));
    while rest.len() > 0
        invariant
            0 <= k <= orig.len(),
            item_views(out@) == in_plan_order(orig.take(k)),
            item_views(rest@) == orig.skip(k),
            rest@.len() == orig.len() - k,
        decreases rest@.len(),
    {
        let ghost rest_before = rest@;
        let x = rest.remove(0);
        assert(item_views(rest_before)[0] == x@);
        assert(orig[k] == x@);
        let ghost sorted = item_views(out@);
        let mut j = out.len();
        while j > 0 && !(
            (!out[j - 1].is_runtime && x.is_runtime)
            || (out[j - 1].is_runtime == x.is_runtime && out[j - 1].download_size >= x.download_size))
            invariant
                j <= out@.len(),
                sorted == item_views(out@),
                forall|m: int| j <= m < sorted.len() ==> !plan_le(#[trigger] sorted[m], x@),
            decreases j,
        {
            assert(sorted[j - 1] == out@[j - 1]@);
            j = j - 1;
        }
        proof {
            if j > 0 {
                assert(sorted[j - 1] == out@[j - 1]@);
            }
            lemma_insert_at(sorted, x@, j as int);
            assert(orig.take(k + 1).drop_last() =~= orig.take(k));
            assert(orig.take(k + 1).last() == x@);
        }
        out.insert(j, x);
        assert(item_views(out@) =~= sorted.take(j as int).push(x@) + sorted.skip(j as int));
        assert(rest@ =~= rest_before.skip(1));
        assert(item_views(rest@) =~= item_views(rest_before).skip(1));
        proof {
            k = k + 1;
        }
        assert(item_views(rest@) =~= orig.skip(k));
    }
    assert(orig.take(k) =~= orig);
    out
}


/// Whether `s` is in plan order throughout.
pub open spec fn plan_sorted(s: Seq<PlanItemView>) -> bool {
    forall|i: int, j: int| 0 <= i < j < s.len() ==> plan_le(#[trigger] s[i], #[trigger] s[j])
}

proof fn lemma_insert_multiset(s: Seq<PlanItemView>, x: PlanItemView)
    ensures
        insert_in_order(s, x).to_multiset() =~= s.to_multiset().insert(x),
    decreases s.len(),
{
    broadcast use vstd::seq_lib::group_to_multiset_ensures;
    if s.len() > 0 && !plan_le(s.last(), x) {
        lemma_insert_multiset(s.drop_last(), x);
        assert(s.drop_last().push(s.last()) =~= s);
    }
}

proof fn lemma_insert_sorted(s: Seq<PlanItemView>, x: PlanItemView)
    requires
        plan_sorted(s),
    ensures
        plan_sorted(insert_in_order(s, x)),
    decreases s.len(),
{
    broadcast use vstd::seq_lib::group_to_multiset_ensures;
    let r = insert_in_order(s, x);
    if s.len() == 0 || plan_le(s.last(), x) {
        assert forall|i: int, j: int| 0 <= i < j < r.len() implies plan_le(#[trigger] r[i], #[trigger] r[j]) by {
            if j == s.len() && i < s.len() - 1 {
                assert(plan_le(s[i], s[s.len() - 1]));
            }
        }
    } else {
        let t = s.drop_last();
        let l = s.last();
        assert(plan_sorted(t)) by {
            assert forall|i: int, j: int| 0 <= i < j < t.len() implies plan_le(#[trigger] t[i], #[trigger] t[j]) by {
                assert(t[i] == s[i] && t[j] == s[j]);
            }
        }
        lemma_insert_sorted(t, x);
        lemma_insert_multiset(t, x);
        let r0 = insert_in_order(t, x);
        assert forall|i: int, j: int| 0 <= i < j < r.len() implies plan_le(#[trigger] r[i], #[trigger] r[j]) by {
            if j == r0.len() {
                let v = r0[i];
                assert(r0.contains(v));
                if v != x {
                    assert(r0.to_multiset().count(v) > 0);
                    assert(t.to_multiset().count(v) > 0);
                    assert(t.contains(v));
                    let k = choose|k: int| 0 <= k < t.len() && t[k] == v;
                    assert(plan_le(s[k], s[s.len() - 1]));
                }
            } else {
                assert(r[i] == r0[i] && r[j] == r0[j]);
            }
        }
    }
}

/// A plan's items come out in plan order: the app before anything it pulls
/// in, and among those the largest download first.
pub proof fn law_plan_order_is_sorted(items: Seq<PlanItemView>)
    ensures
        plan_sorted(in_plan_order(items)),
    decreases items.len(),
{
    if items.len() > 0 {
        law_plan_order_is_sorted(items.drop_last());
        lemma_insert_sorted(in_plan_order(items.drop_last()), items.last());
    }
}

/// Ordering a plan neither drops, adds nor duplicates an item.
pub proof fn law_plan_order_is_permutation(items: Seq<PlanItemView>)
    ensures
        in_plan_order(items).to_multiset() =~= items.to_multiset(),
    decreases items.len(),
{
    broadcast use vstd::seq_lib::group_to_multiset_ensures;
    if items.len() > 0 {
        law_plan_order_is_permutation(items.drop_last());
        lemma_insert_multiset(in_plan_order(items.drop_last()), items.last());
        assert(items.drop_last().push(items.last()) =~= items);
    }
}

proof fn lemma_totals_remove(items: Seq<PlanItemView>, k: int)
    requires
        0 <= k < items.len(),
    ensures
        total_download(items) == total_download(items.remove(k)) + items[k].download_size,
        total_installed(items) == total_installed(items.remove(k)) + items[k].installed_size,
    decreases items.len(),
{
    if k == items.len() - 1 {
        assert(items.remove(k) =~= items.drop_last());
    } else {
        lemma_totals_remove(items.drop_last(), k);
        assert(items.remove(k).drop_last() =~= items.drop_last().remove(k));
        assert(items.remove(k).last() == items.last());
    }
}

/// The size totals of a plan do not depend on the order of its items: any
/// rearrangement of the same items downloads and occupies as much.
pub proof fn law_totals_ignore_order(a: Seq<PlanItemView>, b: Seq<PlanItemView>)
    requires
        a.to_multiset() == b.to_multiset(),
    ensures
        total_download(a) == total_download(b),
        total_installed(a) == total_installed(b),
    decreases a.len(),
{
    broadcast use vstd::seq_lib::group_to_multiset_ensures;
    if a.len() == 0 {
        assert(b.to_multiset().len() == 0);
        assert(b.len() == 0);
    } else {
        let x = a.last();
        let rest = a.drop_last();
        assert(rest.push(x) =~= a);
        assert(a.to_multiset() == rest.to_multiset().insert(x));
        assert(b.to_multiset().count(x) > 0);
        assert(b.contains(x));
        let k = choose|k: int| 0 <= k < b.len() && b[k] == x;
        assert(b.remove(k).to_multiset() == b.to_multiset().remove(x));
        assert(rest.to_multiset() =~= b.remove(k).to_multiset());
        law_totals_ignore_order(rest, b.remove(k));
        lemma_totals_remove(b, k);
    }
}

} // verus!
