//! Mapping installed distro packages to the applications they provide.
//!
//! PackageKit's `APPLICATION` filter lets daemons and libraries through on
//! some backends, and gives neither a display name nor an icon. Desktop
//! entries answer all three questions at once: which packages ship a visible
//! application, what it is called, and which icon it uses. This module reads
//! the `[Desktop Entry]` group of each entry, keeps the ones a menu would
//! show, and pairs them with the package that owns them, as `dpkg -S`
//! reports it.

use vstd::prelude::*;
use crate::text::{
    chars_of, eq_chars, eq_lit, ends_with, ends_with_lit, find_char, first_index, occurs_at, split, split_chars,
    split_once, split_once_chars, string_of, trim, trim_chars, views,
};

verus! {

/// What a desktop entry tells us about an application.
#[derive(Debug, Clone)]
pub struct Entry {
    /// `Name=`, e.g. "Visual Studio Code" rather than "code".
    pub name: String,
    /// `Icon=`, resolvable through the icon theme.
    pub icon: Option<String>,
}

/// An entry with its text as plain characters.
pub struct EntryView {
    pub name: Seq<char>,
    pub icon: Option<Seq<char>>,
}

/// The characters of an optional string.
pub open spec fn opt_view(o: Option<String>) -> Option<Seq<char>> {
    match o {
        Some(s) => Some(s@),
        None => None,
    }
}

/// The characters of an optional character vector.
pub open spec fn opt_chars(o: Option<Vec<char>>) -> Option<Seq<char>> {
    match o {
        Some(v) => Some(v@),
        None => None,
    }
}

impl View for Entry {
    type V = EntryView;

    open spec fn view(&self) -> EntryView {
        EntryView { name: self.name@, icon: opt_view(self.icon) }
    }
}

/// The entry a parse produced, if any.
pub open spec fn entry_opt_view(o: Option<Entry>) -> Option<EntryView> {
    match o {
        Some(e) => Some(e@),
        None => None,
    }
}

/// What has been read of a desktop file so far.
pub struct DesktopScan {
    /// Whether the current group is `[Desktop Entry]`.
    pub in_group: bool,
    pub name: Option<Seq<char>>,
    pub icon: Option<Seq<char>>,
    pub kind: Option<Seq<char>>,
    /// `NoDisplay=true` or `Hidden=true` was seen.
    pub hidden: bool,
}

/// The state before the first line.
pub open spec fn scan_start() -> DesktopScan {
    DesktopScan { in_group: false, name: None, icon: None, kind: None, hidden: false }
}

/// Read one line. A group header switches groups; inside `[Desktop Entry]`
/// a `key=value` line sets what it names. Action groups repeat `Name=` and
/// are skipped, so the application's own name wins.
pub open spec fn desktop_step(st: DesktopScan, raw: Seq<char>) -> DesktopScan {
    let line = trim(raw);
    if line.len() > 0 && line[0] == '[' {
        DesktopScan {
            in_group: line == "[Desktop Entry]"@,
            name: st.name,
            icon: st.icon,
            kind: st.kind,
            hidden: st.hidden,
        }
    } else if !st.in_group {
        st
    } else {
        match split_once(line, '=') {
            None => st,
            Some((k, v)) => {
                let key = trim(k);
                let value = trim(v);
                if key == "Name"@ {
                    DesktopScan {
                        in_group: st.in_group,
                        name: Some(value),
                        icon: st.icon,
                        kind: st.kind,
                        hidden: st.hidden,
                    }
                } else if key == "Icon"@ {
                    DesktopScan {
                        in_group: st.in_group,
                        name: st.name,
                        icon: Some(value),
                        kind: st.kind,
                        hidden: st.hidden,
                    }
                } else if key == "Type"@ {
                    DesktopScan {
                        in_group: st.in_group,
                        name: st.name,
                        icon: st.icon,
                        kind: Some(value),
                        hidden: st.hidden,
                    }
                } else if (key == "NoDisplay"@ || key == "Hidden"@) && value == "true"@ {
                    DesktopScan {
                        in_group: st.in_group,
                        name: st.name,
                        icon: st.icon,
                        kind: st.kind,
                        hidden: true,
                    }
                } else {
                    st
                }
            },
        }
    }
}

/// The state after reading `lines` in order.
pub open spec fn desktop_scan(lines: Seq<Seq<char>>) -> DesktopScan
    decreases lines.len(),
{
    if lines.len() == 0 {
        scan_start()
    } else {
        desktop_step(desktop_scan(lines.drop_last()), lines.last())
    }
}

/// What a desktop file says, when a menu would show it: an `Application`
/// with a name that is neither `NoDisplay` nor `Hidden`.
pub open spec fn parse_entry(text: Seq<char>) -> Option<EntryView> {
    let st = desktop_scan(split(text, '\n'));
    if st.hidden || st.kind != Some("Application"@) {
        None
    } else {
        match st.name {
            Some(n) => Some(EntryView { name: n, icon: st.icon }),
            None => None,
        }
    }
}

/// Parse the `[Desktop Entry]` group, keeping only what a menu would show.
pub fn parse(text: &str) -> (r: Option<Entry>)
    ensures
        entry_opt_view(r) == parse_entry(text@),
{
    let v = chars_of(text);
    let lines = split_chars(&v, '\n');
    let ghost ls = views(lines@);
    let mut in_group = false;
    let mut name: Option<Vec<char>> = None;
    let mut icon: Option<Vec<char>> = None;
    let mut kind: Option<Vec<char>> = None;
    let mut hidden = false;
    let mut i: usize = 0;
    assert(ls.take(0) =~= Seq::<Seq<char>>::empty());
    while i < lines.len()
        invariant
            ls == views(lines@),
            ls == split(text@, '\n'),
            i <= lines@.len(),
            (DesktopScan {
                in_group,
                name: opt_chars(name),
                icon: opt_chars(icon),
                kind: opt_chars(kind),
                hidden,
            }) == desktop_scan(ls.take(i as int)),
        decreases lines@.len() - i,
    {
        let line = trim_chars(&lines[i]);
        proof {
            assert(ls.take(i + 1 as int).drop_last() =~= ls.take(i as int));
            assert(ls[i as int] == lines@[i as int]@);
        }
        if line.len() > 0 && line[0] == '[' {
            in_group = eq_lit(&line, "[Desktop Entry]");
        } else if in_group {
            match split_once_chars(&line, '=') {
                Some((k, val)) => {
                    let key = trim_chars(&k);
                    let value = trim_chars(&val);
                    if eq_lit(&key, "Name") {
                        name = Some(value);
                    } else if eq_lit(&key, "Icon") {
                        icon = Some(value);
                    } else if eq_lit(&key, "Type") {
                        kind = Some(value);
                    } else if (eq_lit(&key, "NoDisplay") || eq_lit(&key, "Hidden")) && eq_lit(
                        &value,
                        "true",
                    ) {
                        hidden = true;
                    }
                },
                None => {},
            }
        }
        i = i + 1;
    }
    assert(ls.take(i as int) =~= ls);
    if hidden {
        return None;
    }
    let is_app = match &kind {
        Some(k) => eq_lit(k, "Application"),
        None => false,
    };
    if !is_app {
        return None;
    }
    match name {
        Some(n) => {
            let icon_text = match icon {
                Some(ic) => Some(string_of(&ic)),
                None => None,
            };
            Some(Entry { name: string_of(&n), icon: icon_text })
        },
        None => None,
    }
}

/// Whether a file name has the `desktop` extension, as `Path::extension`
/// reads it: the text after the last dot, where that dot does not start
/// the name.
pub open spec fn is_desktop_name(file_name: Seq<char>) -> bool {
    ends_with(file_name, ".desktop"@) && file_name.len() > 8
}

/// Whether a directory entry is a desktop file worth reading.
pub fn is_desktop_file(file_name: &str) -> (r: bool)
    ensures
        r == is_desktop_name(file_name@),
{
    proof {
        reveal_strlit(".desktop");
    }
    let v = chars_of(file_name);
    v.len() > 8 && ends_with_lit(&v, ".desktop")
}

/// Parse each desktop file, keeping the path of every one a menu would show,
/// in the order given.
pub open spec fn entries_of(files: Seq<(Seq<char>, Seq<char>)>) -> Seq<(Seq<char>, EntryView)>
    decreases files.len(),
{
    if files.len() == 0 {
        Seq::empty()
    } else {
        let prev = entries_of(files.drop_last());
        match parse_entry(files.last().1) {
            Some(e) => prev.push((files.last().0, e)),
            None => prev,
        }
    }
}

/// A list of `(path, text)` pairs as plain characters.
pub open spec fn file_views(files: Seq<(String, String)>) -> Seq<(Seq<char>, Seq<char>)> {
    files.map_values(|f: (String, String)| (f.0@, f.1@))
}

/// A list of `(key, entry)` pairs as plain characters.
pub open spec fn keyed_views(entries: Seq<(String, Entry)>) -> Seq<(Seq<char>, EntryView)> {
    entries.map_values(|e: (String, Entry)| (e.0@, e.1@))
}

/// The desktop files, given as `(path, contents)`, that describe an
/// application a menu would show, each with its parsed entry.
pub fn desktop_entries(files: &Vec<(String, String)>) -> (r: Vec<(String, Entry)>)
    ensures
        keyed_views(r@) == entries_of(file_views(files@)),
{
    let ghost fs = file_views(files@);
    let mut out: Vec<(String, Entry)> = Vec::new();
    let mut i: usize = 0;
    assert(fs.take(0) =~= Seq::<(Seq<char>, Seq<char>)>::empty());
    assert(keyed_views(out@) =~= Seq::<(Seq<char>, EntryView)>::empty());
    while i < files.len()
        invariant
            fs == file_views(files@),
            i <= files@.len(),
            keyed_views(out@) == entries_of(fs.take(i as int)),
        decreases files@.len() - i,
    {
        proof {
            assert(fs.take(i + 1 as int).drop_last() =~= fs.take(i as int));
            assert(fs[i as int] == (files@[i as int].0@, files@[i as int].1@));
        }
        let parsed = parse(files[i].1.as_str());
        match parsed {
            Some(e) => {
                let path = files[i].0.clone();
                let ghost before = out@;
                out.push((path, e));
                assert(keyed_views(out@) =~= keyed_views(before).push((path@, e@)));
            },
            None => {},
        }
        i = i + 1;
    }
    assert(fs.take(i as int) =~= fs);
    out
}

/// The two characters that separate owners from the path in `dpkg -S`.
pub open spec fn owner_separator() -> Seq<char> {
    seq![':', ' ']
}

/// Index of the first occurrence of `p` in `s` at or after `i`, or -1.
pub open spec fn find_from(s: Seq<char>, p: Seq<char>, i: int) -> int
    decreases s.len() + 1 - i,
{
    if i < 0 || i + p.len() > s.len() {
        -1
    } else if occurs_at(s, p, i) {
        i
    } else {
        find_from(s, p, i + 1)
    }
}

/// One line of `dpkg -S` output, `a, b: /path`, as the path and the first
/// package that owns it.
pub open spec fn dpkg_line(line: Seq<char>) -> Option<(Seq<char>, Seq<char>)> {
    let i = find_from(line, owner_separator(), 0);
    if i < 0 {
        None
    } else {
        let packages = line.take(i);
        let first = packages.take(first_index(packages, ','));
        Some((trim(line.skip(i + 2)), trim(first)))
    }
}

/// The `(path, package)` pairs of `dpkg -S` output, line by line.
pub open spec fn dpkg_owners(lines: Seq<Seq<char>>) -> Seq<(Seq<char>, Seq<char>)>
    decreases lines.len(),
{
    if lines.len() == 0 {
        Seq::empty()
    } else {
        let prev = dpkg_owners(lines.drop_last());
        match dpkg_line(lines.last()) {
            Some(p) => prev.push(p),
            None => prev,
        }
    }
}

/// The package that owns `path`; a later line overrides an earlier one.
pub open spec fn owner_of(owners: Seq<(Seq<char>, Seq<char>)>, path: Seq<char>) -> Option<Seq<char>>
    decreases owners.len(),
{
    if owners.len() == 0 {
        None
    } else if owners.last().0 == path {
        Some(owners.last().1)
    } else {
        owner_of(owners.drop_last(), path)
    }
}

/// Whether `key` already has an entry.
pub open spec fn has_key(s: Seq<(Seq<char>, EntryView)>, key: Seq<char>) -> bool {
    exists|i: int| 0 <= i < s.len() && #[trigger] s[i].0 == key
}

/// Each entry under the package that owns its file. Several desktop files
/// can belong to one package; the first one wins.
pub open spec fn package_entries(
    entries: Seq<(Seq<char>, EntryView)>,
    owners: Seq<(Seq<char>, Seq<char>)>,
) -> Seq<(Seq<char>, EntryView)>
    decreases entries.len(),
{
    if entries.len() == 0 {
        Seq::empty()
    } else {
        let prev = package_entries(entries.drop_last(), owners);
        match owner_of(owners, entries.last().0) {
            Some(pkg) => if has_key(prev, pkg) {
                prev
            } else {
                prev.push((pkg, entries.last().1))
            },
            None => prev,
        }
    }
}

/// Where `: ` first occurs in `v`.
fn find_separator(v: &[char]) -> (r: Option<usize>)
    ensures
        match r {
            Some(i) => find_from(v@, owner_separator(), 0) == i as int && i + 2 <= v@.len(),
            None => find_from(v@, owner_separator(), 0) == -1,
        },
{
    let n = v.len();
    let mut i: usize = 0;
    while n >= 2 && i <= n - 2
        invariant
            n == v@.len(),
            i <= n,
            find_from(v@, owner_separator(), 0) == find_from(v@, owner_separator(), i as int),
        decreases n - i,
    {
        if v[i] == ':' && v[i + 1] == ' ' {
            assert(v@.subrange(i as int, i + 2) =~= owner_separator());
            return Some(i);
        }
        assert(v@.subrange(i as int, i + 2)[0] == v@[i as int]);
        assert(v@.subrange(i as int, i + 2)[1] == v@[i + 1]);
        i = i + 1;
    }
    None
}

/// Parse one `dpkg -S` line.
fn owner_line(line: &[char]) -> (r: Option<(Vec<char>, Vec<char>)>)
    ensures
        match (r, dpkg_line(line@)) {
            (Some((a, b)), Some((sa, sb))) => a@ == sa && b@ == sb,
            (None, None) => true,
            _ => false,
        },
{
    match find_separator(line) {
        None => None,
        Some(i) => {
            let mut packages: Vec<char> = Vec::new();
            let mut k: usize = 0;
            while k < i
                invariant
                    i + 2 <= line@.len(),
                    k <= i,
                    packages@ == line@.take(k as int),
                decreases i - k,
            {
                packages.push(line[k]);
                k = k + 1;
                assert(packages@ =~= line@.take(k as int));
            }
            let mut path: Vec<char> = Vec::new();
            let len = line.len();
            assert(i + 2 <= len);
            let mut m: usize = i + 2;
            assert(path@ =~= line@.subrange(i + 2, m as int));
            while m < line.len()
                invariant
                    i + 2 <= m <= line@.len(),
                    path@ == line@.subrange(i + 2, m as int),
                decreases line@.len() - m,
            {
                path.push(line[m]);
                m = m + 1;
                assert(path@ =~= line@.subrange(i + 2, m as int));
            }
            assert(path@ =~= line@.skip(i + 2));
            let cut = find_char(&packages, ',');
            let mut first: Vec<char> = Vec::new();
            let mut j: usize = 0;
            while j < cut
                invariant
                    cut <= packages@.len(),
                    j <= cut,
                    first@ == packages@.take(j as int),
                decreases cut - j,
            {
                first.push(packages[j]);
                j = j + 1;
                assert(first@ =~= packages@.take(j as int));
            }
            Some((trim_chars(&path), trim_chars(&first)))
        },
    }
}

/// The `(path, package)` pairs of `dpkg -S` output.
fn parse_owners(output: &str) -> (r: Vec<(Vec<char>, Vec<char>)>)
    ensures
        r@.map_values(|p: (Vec<char>, Vec<char>)| (p.0@, p.1@)) == dpkg_owners(
            split(output@, '\n'),
        ),
{
    let v = chars_of(output);
    let lines = split_chars(&v, '\n');
    let ghost ls = views(lines@);
    let mut out: Vec<(Vec<char>, Vec<char>)> = Vec::new();
    let mut i: usize = 0;
    assert(ls.take(0) =~= Seq::<Seq<char>>::empty());
    assert(out@.map_values(|p: (Vec<char>, Vec<char>)| (p.0@, p.1@)) =~= Seq::<
        (Seq<char>, Seq<char>),
    >::empty());
    while i < lines.len()
        invariant
            ls == views(lines@),
            ls == split(output@, '\n'),
            i <= lines@.len(),
            out@.map_values(|p: (Vec<char>, Vec<char>)| (p.0@, p.1@)) == dpkg_owners(
                ls.take(i as int),
            ),
        decreases lines@.len() - i,
    {
        proof {
            assert(ls.take(i + 1 as int).drop_last() =~= ls.take(i as int));
            assert(ls[i as int] == lines@[i as int]@);
        }
        match owner_line(&lines[i]) {
            Some(p) => {
                let ghost before = out@;
                out.push(p);
                assert(out@.map_values(|p: (Vec<char>, Vec<char>)| (p.0@, p.1@)) =~= before.map_values(
                    |p: (Vec<char>, Vec<char>)| (p.0@, p.1@),
                ).push((p.0@, p.1@)));
            },
            None => {},
        }
        i = i + 1;
    }
    assert(ls.take(i as int) =~= ls);
    out
}

/// Pair each application entry, given as `(desktop file path, entry)`, with
/// the package that owns its file according to `dpkg -S` output. Entries no
/// package owns are dropped; a package keeps the first entry it owns.
pub fn applications(entries: &Vec<(String, Entry)>, dpkg_output: &str) -> (r: Vec<
    (String, Entry),
>)
    ensures
        keyed_views(r@) == package_entries(keyed_views(entries@), dpkg_owners(
            split(dpkg_output@, '\n'),
        )),
{
    let owners = parse_owners(dpkg_output);
    let ghost ow = owners@.map_values(|p: (Vec<char>, Vec<char>)| (p.0@, p.1@));
    let ghost es = keyed_views(entries@);
    let mut out: Vec<(String, Entry)> = Vec::new();
    let mut i: usize = 0;
    assert(es.take(0) =~= Seq::<(Seq<char>, EntryView)>::empty());
    assert(keyed_views(out@) =~= Seq::<(Seq<char>, EntryView)>::empty());
    while i < entries.len()
        invariant
            es == keyed_views(entries@),
            ow == owners@.map_values(|p: (Vec<char>, Vec<char>)| (p.0@, p.1@)),
            i <= entries@.len(),
            keyed_views(out@) == package_entries(es.take(i as int), ow),
        decreases entries@.len() - i,
    {
        proof {
            assert(es.take(i + 1 as int).drop_last() =~= es.take(i as int));
            assert(es[i as int] == (entries@[i as int].0@, entries@[i as int].1@));
        }
        let path = chars_of(entries[i].0.as_str());
        // The last line naming this path decides its owner.
        let mut k: usize = owners.len();
        assert(ow.take(k as int) =~= ow);
        while k > 0 && !eq_chars(&owners[k - 1].0, &path)
            invariant
                k <= owners@.len(),
                ow == owners@.map_values(|p: (Vec<char>, Vec<char>)| (p.0@, p.1@)),
                owner_of(ow, path@) == owner_of(ow.take(k as int), path@),
            decreases k,
        {
            proof {
                assert(ow.take(k as int).drop_last() =~= ow.take(k - 1));
                assert(ow.take(k as int).last() == ow[k - 1]);
            }
            k = k - 1;
        }
        proof {
            assert(ow.take(owners@.len() as int) =~= ow);
        }
        if k > 0 {
            proof {
                assert(ow.take(k as int).last() == ow[k - 1]);
            }
            let pkg = string_of(&owners[k - 1].1);
            assert(owner_of(ow, path@) == Some(pkg@));
            let mut seen = false;
            let mut j: usize = 0;
            while j < out.len()
                invariant
                    j <= out@.len(),
                    seen <==> exists|m: int| 0 <= m < j && #[trigger] keyed_views(out@)[m].0
                        == pkg@,
                decreases out@.len() - j,
            {
                if out[j].0 == pkg {
                    seen = true;
                }
                assert(keyed_views(out@)[j as int].0 == out@[j as int].0@);
                j = j + 1;
            }
            if !seen {
                let e = Entry {
                    name: entries[i].1.name.clone(),
                    icon: match &entries[i].1.icon {
                        Some(ic) => Some(ic.clone()),
                        None => None,
                    },
                };
                let ghost before = out@;
                out.push((pkg, e));
                assert(keyed_views(out@) =~= keyed_views(before).push((pkg@, es[i as int].1)));
            }
        } else {
            assert(owner_of(ow, path@) is None);
        }
        i = i + 1;
    }
    assert(es.take(i as int) =~= es);
    out
}

/// No package is listed twice: each package keeps one application entry.
pub proof fn law_packages_listed_once(
    entries: Seq<(Seq<char>, EntryView)>,
    owners: Seq<(Seq<char>, Seq<char>)>,
)
    ensures
        forall|i: int, j: int|
            0 <= i < j < package_entries(entries, owners).len() ==> #[trigger] package_entries(
                entries,
                owners,
            )[i].0 != #[trigger] package_entries(entries, owners)[j].0,
    decreases entries.len(),
{
    if entries.len() > 0 {
        law_packages_listed_once(entries.drop_last(), owners);
        let prev = package_entries(entries.drop_last(), owners);
        let r = package_entries(entries, owners);
        assert forall|i: int, j: int| 0 <= i < j < r.len() implies #[trigger] r[i].0 != #[trigger] r[j].0 by {
            if j == prev.len() {
                assert(prev[i].0 == r[i].0);
                if r[i].0 == r[j].0 {
                    assert(has_key(prev, r[j].0));
                }
            } else {
                assert(prev[i] == r[i] && prev[j] == r[j]);
            }
        }
    }
}

/// Every listed package owns the desktop file its entry came from.
pub proof fn law_listed_package_owns_entry(
    entries: Seq<(Seq<char>, EntryView)>,
    owners: Seq<(Seq<char>, Seq<char>)>,
    i: int,
)
    requires
        0 <= i < package_entries(entries, owners).len(),
    ensures
        exists|k: int|
            0 <= k < entries.len() && #[trigger] entries[k].1 == package_entries(entries, owners)[i].1
                && owner_of(owners, entries[k].0) == Some(package_entries(entries, owners)[i].0),
    decreases entries.len(),
{
    let prev = package_entries(entries.drop_last(), owners);
    if i < prev.len() {
        law_listed_package_owns_entry(entries.drop_last(), owners, i);
        let k = choose|k: int|
            0 <= k < entries.drop_last().len() && #[trigger] entries.drop_last()[k].1 == prev[i].1
                && owner_of(owners, entries.drop_last()[k].0) == Some(prev[i].0);
        assert(entries[k] == entries.drop_last()[k]);
    } else {
        assert(entries[entries.len() - 1] == entries.last());
    }
}

/// A line that opens a group: once trimmed, it starts with `[`.
pub open spec fn is_header(line: Seq<char>) -> bool {
    trim(line).len() > 0 && trim(line)[0] == '['
}

/// Whether line `i` lies in the `[Desktop Entry]` group: the nearest group
/// header above it opens that group.
pub open spec fn in_entry_group(lines: Seq<Seq<char>>, i: int) -> bool {
    exists|h: int| 0 <= h < i && is_header(#[trigger] lines[h]) && trim(lines[h]) == "[Desktop Entry]"@
        && forall|m: int| h < m < i ==> !is_header(#[trigger] lines[m])
}

/// The key and value line `i` sets in the `[Desktop Entry]` group, both
/// trimmed; `None` for a line elsewhere, a header, or one without `=`.
pub open spec fn entry_setting(lines: Seq<Seq<char>>, i: int) -> Option<(Seq<char>, Seq<char>)> {
    if in_entry_group(lines, i) && !is_header(lines[i]) {
        match split_once(trim(lines[i]), '=') {
            Some((k, v)) => Some((trim(k), trim(v))),
            None => None,
        }
    } else {
        None
    }
}

/// The value the last line of the `[Desktop Entry]` group that sets `key`
/// gives it; `None` when no such line sets it. Keys match exactly, so a
/// localised `Name[de]` is not `Name`.
pub open spec fn last_value(lines: Seq<Seq<char>>, key: Seq<char>) -> Option<Seq<char>>
    decreases lines.len(),
{
    if lines.len() == 0 {
        None
    } else {
        match entry_setting(lines, lines.len() - 1) {
            Some((k, v)) if k == key => Some(v),
            _ => last_value(lines.drop_last(), key),
        }
    }
}

/// Whether some line of the `[Desktop Entry]` group sets `NoDisplay` or
/// `Hidden` to `true`.
pub open spec fn hidden_by(lines: Seq<Seq<char>>) -> bool
    decreases lines.len(),
{
    if lines.len() == 0 {
        false
    } else {
        hidden_by(lines.drop_last()) || match entry_setting(lines, lines.len() - 1) {
            Some((k, v)) => (k == "NoDisplay"@ || k == "Hidden"@) && v == "true"@,
            None => false,
        }
    }
}

proof fn lemma_group_prefix(lines: Seq<Seq<char>>, i: int)
    requires
        0 <= i < lines.len(),
    ensures
        in_entry_group(lines.drop_last(), i) == in_entry_group(lines, i),
{
    let p = lines.drop_last();
    if in_entry_group(p, i) {
        let h = choose|h: int| 0 <= h < i && is_header(#[trigger] p[h]) && trim(p[h]) == "[Desktop Entry]"@
            && forall|m: int| h < m < i ==> !is_header(#[trigger] p[m]);
        assert(p[h] == lines[h]);
        assert forall|m: int| h < m < i implies !is_header(#[trigger] lines[m]) by {
            assert(p[m] == lines[m]);
        }
    }
    if in_entry_group(lines, i) {
        let h = choose|h: int| 0 <= h < i && is_header(#[trigger] lines[h]) && trim(lines[h]) == "[Desktop Entry]"@
            && forall|m: int| h < m < i ==> !is_header(#[trigger] lines[m]);
        assert(p[h] == lines[h]);
        assert forall|m: int| h < m < i implies !is_header(#[trigger] p[m]) by {
            assert(p[m] == lines[m]);
        }
    }
}

proof fn lemma_group_extends(lines: Seq<Seq<char>>)
    requires
        lines.len() > 0,
    ensures
        in_entry_group(lines, lines.len() as int) == if is_header(lines.last()) {
            trim(lines.last()) == "[Desktop Entry]"@
        } else {
            in_entry_group(lines, lines.len() - 1)
        },
{
    let n = lines.len() as int;
    assert(lines[n - 1] == lines.last());
    if is_header(lines.last()) {
        if trim(lines.last()) == "[Desktop Entry]"@ {
            assert(in_entry_group(lines, n));
        }
        if in_entry_group(lines, n) {
            let h = choose|h: int| 0 <= h < n && is_header(#[trigger] lines[h]) && trim(lines[h]) == "[Desktop Entry]"@
                && forall|m: int| h < m < n ==> !is_header(#[trigger] lines[m]);
            if h < n - 1 {
                assert(!is_header(lines[n - 1]));
            }
        }
    } else {
        if in_entry_group(lines, n - 1) {
            let h = choose|h: int| 0 <= h < n - 1 && is_header(#[trigger] lines[h]) && trim(lines[h]) == "[Desktop Entry]"@
                && forall|m: int| h < m < n - 1 ==> !is_header(#[trigger] lines[m]);
            assert forall|m: int| h < m < n implies !is_header(#[trigger] lines[m]) by {}
        }
        if in_entry_group(lines, n) {
            let h = choose|h: int| 0 <= h < n && is_header(#[trigger] lines[h]) && trim(lines[h]) == "[Desktop Entry]"@
                && forall|m: int| h < m < n ==> !is_header(#[trigger] lines[m]);
            assert(h != n - 1);
            assert forall|m: int| h < m < n - 1 implies !is_header(#[trigger] lines[m]) by {}
        }
    }
}

proof fn lemma_scan_reads(lines: Seq<Seq<char>>)
    ensures
        desktop_scan(lines).in_group == in_entry_group(lines, lines.len() as int),
        desktop_scan(lines).name == last_value(lines, "Name"@),
        desktop_scan(lines).icon == last_value(lines, "Icon"@),
        desktop_scan(lines).kind == last_value(lines, "Type"@),
        desktop_scan(lines).hidden == hidden_by(lines),
    decreases lines.len(),
{
    if lines.len() > 0 {
        let p = lines.drop_last();
        let n = lines.len() as int;
        lemma_scan_reads(p);
        lemma_group_prefix(lines, n - 1);
        lemma_group_extends(lines);
        assert(lines[n - 1] == lines.last());
        reveal_strlit("Name");
        reveal_strlit("Icon");
        reveal_strlit("Type");
        reveal_strlit("NoDisplay");
        reveal_strlit("Hidden");
        let (nm, ic, ty, nd, hd) = ("Name"@, "Icon"@, "Type"@, "NoDisplay"@, "Hidden"@);
        assert(nm[0] != ic[0] && nm[0] != ty[0] && nm[1] != nd[1] && nm[0] != hd[0]);
        assert(ic[0] != ty[0] && ic[0] != nd[0] && ic[0] != hd[0]);
        assert(ty[0] != nd[0] && ty[0] != hd[0]);
    }
}

/// When a desktop file yields an entry, read as a whole: only the
/// `[Desktop Entry]` group counts, and a later line there overrides an
/// earlier one. The file yields an entry exactly when that group's last
/// `Type` is `Application`, it sets a `Name`, and it never sets `NoDisplay`
/// or `Hidden` to `true`; the entry then carries the last `Name` and the
/// last `Icon` set there.
pub proof fn law_entry_comes_from_main_group(text: Seq<char>)
    ensures
        ({
            let lines = split(text, '\n');
            &&& (parse_entry(text) is Some <==> !hidden_by(lines) && last_value(lines, "Type"@) == Some(
                "Application"@,
            ) && last_value(lines, "Name"@) is Some)
            &&& (parse_entry(text) matches Some(e) ==> Some(e.name) == last_value(lines, "Name"@)
                && e.icon == last_value(lines, "Icon"@))
        }),
{
    lemma_scan_reads(split(text, '\n'));
}

} // verus!
