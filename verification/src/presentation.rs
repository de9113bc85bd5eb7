//! What the interface says about an app: labels, subtitles, the facts on a
//! detail page, the permission badge, and the disclosure shown before an
//! install. Widgets are built outside; every word they show is chosen here.

use vstd::prelude::*;
use crate::desktop::opt_view;
use crate::sandbox::{headline_text, risk_css_class, risk_icon, risk_label, risk_summary, sandbox_risk, sorted_view, Permission, PermissionView, Risk, Sandbox};
use crate::text::{chars_of, decimal, eq_lit, push_decimal, push_str, split, split_chars, starts_with, starts_with_lit, string_of, trim, trim_chars, views, lowercase, to_lowercase};
use crate::types::{App, backend_display_name};

verus! {

/// What a row's trailing button does.
#[derive(Debug, Clone, Copy, PartialEq, Eq, Structural)]
pub enum RowAction {
    Install,
    Remove,
    Update,
    /// No button: the row is only a navigation target.
    NoAction,
}

impl RowAction {
    /// The button's text, if the row has a button.
    pub fn label(self) -> (s: Option<&'static str>)
        ensures
            match self {
                RowAction::Install => s matches Some(t) && t@ == "Install"@,
                RowAction::Remove => s matches Some(t) && t@ == "Remove"@,
                RowAction::Update => s matches Some(t) && t@ == "Update"@,
                RowAction::NoAction => s is None,
            },
    {
        match self {
            RowAction::Install => Some("Install"),
            RowAction::Remove => Some("Remove"),
            RowAction::Update => Some("Update"),
            RowAction::NoAction => None,
        }
    }

    /// Destructive actions get the red style; the others the accent.
    pub fn css_class(self) -> (s: &'static str)
        ensures
            s@ == (if self == RowAction::Remove {
                "destructive-action"@
            } else {
                "suggested-action"@
            }),
    {
        match self {
            RowAction::Remove => "destructive-action",
            _ => "suggested-action",
        }
    }
}

/// The verb shown while an action runs.
pub fn action_verb(action: RowAction) -> (s: &'static str)
    ensures
        s@ == (match action {
            RowAction::Install => "Installing"@,
            RowAction::Remove => "Removing"@,
            RowAction::Update => "Updating"@,
            RowAction::NoAction => ""@,
        }),
{
    match action {
        RowAction::Install => "Installing",
        RowAction::Remove => "Removing",
        RowAction::Update => "Updating",
        RowAction::NoAction => "",
    }
}

/// The grade an app's sandbox earns, if its sandbox is known.
pub open spec fn app_risk(app: App) -> Option<Risk> {
    match app.sandbox {
        Some(s) => Some(sandbox_risk(s@)),
        None => None,
    }
}

/// The grade chip of a list row: the grade's label, or nothing when the
/// sandbox is unknown.
pub fn risk_chip_label(app: &App) -> (s: String)
    ensures
        s@ == (match app_risk(*app) {
            Some(r) => risk_label(r),
            None => Seq::empty(),
        }),
{
    match &app.sandbox {
        Some(s) => s.risk().label().to_owned(),
        None => String::new(),
    }
}

/// The grade chip's icon, when the sandbox is known.
pub fn risk_chip_icon(app: &App) -> (s: Option<&'static str>)
    ensures
        match (s, app_risk(*app)) {
            (Some(t), Some(r)) => t@ == risk_icon(r),
            (None, None) => true,
            _ => false,
        },
{
    match &app.sandbox {
        Some(s) => Some(s.risk().icon()),
        None => None,
    }
}

/// The grade chip's style classes.
pub fn risk_chip_classes(app: &App) -> (v: Vec<&'static str>)
    ensures
        v@.len() >= 1,
        v@[0]@ == "risk-chip"@,
        match app_risk(*app) {
            Some(r) => v@.len() == 2 && v@[1]@ == risk_css_class(r),
            None => v@.len() == 1,
        },
{
    match &app.sandbox {
        Some(s) => vec!["risk-chip", s.risk().css_class()],
        None => vec!["risk-chip"],
    }
}

/// The summary line of a list row, with the version under it when known.
pub fn row_subtitle(app: &App) -> (s: String)
    ensures
        s@ == (match opt_view(app.summary) {
            Some(t) => t,
            None => "No description available"@,
        }) + (match opt_view(app.version) {
            Some(v) => "\n"@ + v,
            None => Seq::empty(),
        }),
{
    let mut s = match &app.summary {
        Some(t) => t.clone(),
        None => "No description available".to_owned(),
    };
    match &app.version {
        Some(v) => {
            push_str(&mut s, "\n");
            push_str(&mut s, v.as_str());
        },
        None => {},
    }
    s
}

/// The line under a tile's name: "Installed" wins over the developer,
/// since it changes what one would do next; then the summary.
pub fn tile_subtitle(app: &App, installed: bool) -> (s: String)
    ensures
        s@ == (if installed {
            "Installed"@
        } else {
            match (opt_view(app.developer), opt_view(app.summary)) {
                (Some(d), _) => d,
                (None, Some(t)) => t,
                (None, None) => Seq::empty(),
            }
        }),
{
    if installed {
        return "Installed".to_owned();
    }
    match (&app.developer, &app.summary) {
        (Some(d), _) => d.clone(),
        (None, Some(t)) => t.clone(),
        (None, None) => String::new(),
    }
}

/// Who an app is by: its developer, else its id.
pub fn byline(app: &App) -> (s: String)
    ensures
        s@ == (match opt_view(app.developer) {
            Some(d) => d,
            None => app.app_ref.id@,
        }),
{
    match &app.developer {
        Some(d) => d.clone(),
        None => app.app_ref.id.clone(),
    }
}

/// The size shown for an app: what it takes on disk, else what it
/// downloads.
pub fn shown_size(app: &App) -> (n: Option<u64>)
    ensures
        n == (if app.installed_size is Some {
            app.installed_size
        } else {
            app.download_size
        }),
{
    match app.installed_size {
        Some(n) => Some(n),
        None => app.download_size,
    }
}

/// The familiar name of an SPDX licence expression, where it has one.
pub open spec fn license_name(spdx: Seq<char>) -> Seq<char> {
    let t = trim(spdx);
    if t == "GPL-3.0-or-later"@ || t == "GPL-3.0-only"@ || t == "GPL-3.0"@ {
        "GPL 3"@
    } else if t == "GPL-2.0-or-later"@ || t == "GPL-2.0-only"@ || t == "GPL-2.0"@ {
        "GPL 2"@
    } else if t == "LGPL-3.0-or-later"@ || t == "LGPL-3.0-only"@ {
        "LGPL 3"@
    } else if t == "LGPL-2.1-or-later"@ || t == "LGPL-2.1-only"@ {
        "LGPL 2.1"@
    } else if t == "MIT"@ {
        "MIT"@
    } else if t == "Apache-2.0"@ {
        "Apache 2"@
    } else if t == "MPL-2.0"@ {
        "MPL 2"@
    } else if t == "AGPL-3.0-or-later"@ || t == "AGPL-3.0-only"@ {
        "AGPL 3"@
    } else if t == "BSD-3-Clause"@ {
        "BSD 3-Clause"@
    } else if t == "BSD-2-Clause"@ {
        "BSD 2-Clause"@
    } else if t == "LicenseRef-proprietary"@ || starts_with(t, "LicenseRef-"@) {
        "Proprietary"@
    } else {
        t
    }
}

/// SPDX expressions are unreadable in an interface chip: the common ones
/// are shown by their familiar name, anything else as written.
pub fn humanise_license(spdx: &str) -> (s: String)
    ensures
        s@ == license_name(spdx@),
{
    let v = chars_of(spdx);
    let t = trim_chars(&v);
    let name = if eq_lit(&t, "GPL-3.0-or-later") || eq_lit(&t, "GPL-3.0-only") || eq_lit(
        &t,
        "GPL-3.0",
    ) {
        "GPL 3"
    } else if eq_lit(&t, "GPL-2.0-or-later") || eq_lit(&t, "GPL-2.0-only") || eq_lit(
        &t,
        "GPL-2.0",
    ) {
        "GPL 2"
    } else if eq_lit(&t, "LGPL-3.0-or-later") || eq_lit(&t, "LGPL-3.0-only") {
        "LGPL 3"
    } else if eq_lit(&t, "LGPL-2.1-or-later") || eq_lit(&t, "LGPL-2.1-only") {
        "LGPL 2.1"
    } else if eq_lit(&t, "MIT") {
        "MIT"
    } else if eq_lit(&t, "Apache-2.0") {
        "Apache 2"
    } else if eq_lit(&t, "MPL-2.0") {
        "MPL 2"
    } else if eq_lit(&t, "AGPL-3.0-or-later") || eq_lit(&t, "AGPL-3.0-only") {
        "AGPL 3"
    } else if eq_lit(&t, "BSD-3-Clause") {
        "BSD 3-Clause"
    } else if eq_lit(&t, "BSD-2-Clause") {
        "BSD 2-Clause"
    } else if eq_lit(&t, "LicenseRef-proprietary") || starts_with_lit(&t, "LicenseRef-") {
        "Proprietary"
    } else {
        return string_of(&t);
    };
    name.to_owned()
}

/// A fact pill: its caption and its value.
pub open spec fn fact(caption: Seq<char>, value: Seq<char>) -> (Seq<char>, Seq<char>) {
    (caption, value)
}

/// The facts worth showing as pills, skipping anything unknown: version,
/// licence, format, source and size, in that order.
pub open spec fn facts_of(app: App, size_text: Option<Seq<char>>) -> Seq<(Seq<char>, Seq<char>)> {
    let a = match opt_view(app.version) {
        Some(v) => seq![fact("Version"@, v)],
        None => Seq::empty(),
    };
    let b = match opt_view(app.license) {
        Some(l) => seq![fact("Licence"@, license_name(l))],
        None => Seq::empty(),
    };
    let c = seq![fact("Format"@, backend_display_name(app.app_ref.backend))];
    let d = match opt_view(app.app_ref.origin) {
        Some(o) => seq![fact("Source"@, o)],
        None => Seq::empty(),
    };
    let e = match size_text {
        Some(t) => seq![fact("Size"@, t)],
        None => Seq::empty(),
    };
    a + b + c + d + e
}

/// A list of caption-value pairs as plain characters.
pub open spec fn pair_views(v: Seq<(String, String)>) -> Seq<(Seq<char>, Seq<char>)> {
    v.map_values(|p: (String, String)| (p.0@, p.1@))
}

/// The fact pills of a detail page. `size_text` is the shown size, already
/// written out for reading.
pub fn facts(app: &App, size_text: Option<String>) -> (v: Vec<(String, String)>)
    ensures
        pair_views(v@) == facts_of(*app, opt_view(size_text)),
{
    let mut v: Vec<(String, String)> = Vec::new();
    let ghost want = facts_of(*app, opt_view(size_text));
    if let Some(version) = &app.version {
        v.push(("Version".to_owned(), version.clone()));
    }
    if let Some(license) = &app.license {
        v.push(("Licence".to_owned(), humanise_license(license.as_str())));
    }
    v.push(("Format".to_owned(), app.app_ref.backend.display_name().to_owned()));
    if let Some(origin) = &app.app_ref.origin {
        v.push(("Source".to_owned(), origin.clone()));
    }
    if let Some(t) = size_text {
        v.push(("Size".to_owned(), t));
    }
    assert(pair_views(v@) =~= want);
    v
}

/// The detail page's main button.
pub fn button_label(busy: bool, installed: bool) -> (s: &'static str)
    ensures
        s@ == (if busy {
            "Working…"@
        } else if installed {
            "Remove"@
        } else {
            "Install"@
        }),
{
    if busy {
        "Working…"
    } else if installed {
        "Remove"
    } else {
        "Install"
    }
}

/// The main button's style classes.
pub fn button_classes(installed: bool) -> (v: Vec<&'static str>)
    ensures
        v@.len() == 2,
        v@[0]@ == "pill"@,
        v@[1]@ == (if installed {
            "destructive-action"@
        } else {
            "suggested-action"@
        }),
{
    if installed {
        vec!["pill", "destructive-action"]
    } else {
        vec!["pill", "suggested-action"]
    }
}

// ---------------------------------------------------------------------
// AppStream descriptions.
// ---------------------------------------------------------------------

/// `s` without its leading `c`s.
pub open spec fn skip_leading(s: Seq<char>, c: char) -> Seq<char>
    decreases s.len(),
{
    if s.len() > 0 && s[0] == c {
        skip_leading(s.drop_first(), c)
    } else {
        s
    }
}

/// The element a tag's text names: closing slashes and whitespace
/// dropped, lower-cased.
pub open spec fn tag_name(tag: Seq<char>) -> Seq<char> {
    lowercase(trim(skip_leading(tag, '/')))
}

/// Whether a tag starts a new line: paragraphs, breaks and lists.
pub open spec fn breaks_line(name: Seq<char>) -> bool {
    name == "p"@ || name == "br"@ || name == "li"@ || name == "ul"@ || name == "ol"@
}

/// What a tag contributes to the text: a line break for block elements,
/// and a bullet for list items.
pub open spec fn tag_text(name: Seq<char>) -> Seq<char> {
    (if breaks_line(name) {
        seq!['\n']
    } else {
        Seq::empty()
    }) + (if starts_with(name, "li"@) {
        seq!['•', ' ']
    } else {
        Seq::empty()
    })
}

/// Reading markup: the text so far, whether a tag is open, and the open
/// tag's text.
pub struct MarkupScan {
    pub out: Seq<char>,
    pub in_tag: bool,
    pub tag: Seq<char>,
}

/// Read one character of markup.
pub open spec fn markup_step(st: MarkupScan, ch: char) -> MarkupScan {
    if ch == '<' {
        MarkupScan { out: st.out, in_tag: true, tag: Seq::empty() }
    } else if ch == '>' && st.in_tag {
        MarkupScan { out: st.out + tag_text(tag_name(st.tag)), in_tag: false, tag: st.tag }
    } else if st.in_tag {
        MarkupScan { out: st.out, in_tag: true, tag: st.tag.push(ch) }
    } else {
        MarkupScan { out: st.out.push(ch), in_tag: false, tag: st.tag }
    }
}

/// The state after reading `s`.
pub open spec fn markup_scan(s: Seq<char>) -> MarkupScan
    decreases s.len(),
{
    if s.len() == 0 {
        MarkupScan { out: Seq::empty(), in_tag: false, tag: Seq::empty() }
    } else {
        markup_step(markup_scan(s.drop_last()), s.last())
    }
}

/// Tidying the text line by line: what is kept so far, and how many blank
/// lines came last.
pub open spec fn tidy(lines: Seq<Seq<char>>) -> (Seq<char>, nat)
    decreases lines.len(),
{
    if lines.len() == 0 {
        (Seq::empty(), 0)
    } else {
        let (kept, blank) = tidy(lines.drop_last());
        let line = trim(lines.last());
        if line.len() == 0 {
            if blank + 1 > 1 {
                (kept, blank + 1)
            } else {
                (kept + seq!['\n'], blank + 1)
            }
        } else {
            (kept + line + seq!['\n'], 0)
        }
    }
}

/// A description as plain text: tags removed, block elements as line
/// breaks, list items bulleted, each line trimmed, runs of blank lines
/// folded into one, and the whole trimmed.
pub open spec fn plain_text(markup: Seq<char>) -> Seq<char> {
    trim(tidy(split(markup_scan(markup).out, '\n')).0)
}

/// `v` without its leading `c`s.
fn skip_leading_chars(v: &[char], c: char) -> (r: Vec<char>)
    ensures
        r@ == skip_leading(v@, c),
{
    let mut i: usize = 0;
    assert(v@.skip(0) =~= v@);
    while i < v.len() && v[i] == c
        invariant
            i <= v@.len(),
            skip_leading(v@.skip(i as int), c) == skip_leading(v@, c),
        decreases v@.len() - i,
    {
        assert(v@.skip(i as int).drop_first() =~= v@.skip(i + 1));
        i = i + 1;
    }
    let mut r: Vec<char> = Vec::new();
    let mut k: usize = i;
    while k < v.len()
        invariant
            i <= k <= v@.len(),
            r@ == v@.subrange(i as int, k as int),
        decreases v@.len() - k,
    {
        r.push(v[k]);
        k = k + 1;
        assert(r@ =~= v@.subrange(i as int, k as int));
    }
    assert(r@ =~= v@.skip(i as int));
    r
}

/// The text a closed tag contributes.
fn tag_output(tag: &[char]) -> (r: Vec<char>)
    ensures
        r@ == tag_text(tag_name(tag@)),
{
    let stripped = skip_leading_chars(tag, '/');
    let trimmed = trim_chars(&stripped);
    let text = string_of(&trimmed);
    let lower = to_lowercase(text.as_str());
    let name = chars_of(lower.as_str());
    let mut r: Vec<char> = Vec::new();
    if eq_lit(&name, "p") || eq_lit(&name, "br") || eq_lit(&name, "li") || eq_lit(&name, "ul")
        || eq_lit(&name, "ol") {
        r.push('\n');
    }
    if starts_with_lit(&name, "li") {
        r.push('•');
        r.push(' ');
    }
    assert(r@ =~= tag_text(tag_name(tag@)));
    r
}

/// Strip the HTML subset AppStream descriptions use. Tags are removed and
/// block elements become line breaks, since the interface's text markup is
/// not HTML and would show nothing at all for `<p>`.
pub fn strip_markup(input: &str) -> (s: String)
    ensures
        s@ == plain_text(input@),
{
    let v = chars_of(input);
    let mut out: Vec<char> = Vec::new();
    let mut in_tag = false;
    let mut tag: Vec<char> = Vec::new();
    let mut i: usize = 0;
    assert(v@.take(0) =~= Seq::<char>::empty());
    while i < v.len()
        invariant
            v@ == input@,
            i <= v@.len(),
            (MarkupScan { out: out@, in_tag, tag: tag@ }) == markup_scan(v@.take(i as int)),
        decreases v@.len() - i,
    {
        let ch = v[i];
        proof {
            assert(v@.take(i + 1 as int).drop_last() =~= v@.take(i as int));
        }
        if ch == '<' {
            in_tag = true;
            tag = Vec::new();
        } else if ch == '>' && in_tag {
            in_tag = false;
            let extra = tag_output(&tag);
            let ghost before = out@;
            let mut k: usize = 0;
            while k < extra.len()
                invariant
                    k <= extra@.len(),
                    out@ == before + extra@.take(k as int),
                decreases extra@.len() - k,
            {
                out.push(extra[k]);
                k = k + 1;
                assert(out@ =~= before + extra@.take(k as int));
            }
            assert(extra@.take(k as int) =~= extra@);
        } else if in_tag {
            tag.push(ch);
        } else {
            out.push(ch);
        }
        i = i + 1;
    }
    assert(v@.take(i as int) =~= v@);
    // Tidy line by line.
    let lines = split_chars(&out, '\n');
    let ghost ls = views(lines@);
    let mut cleaned: Vec<char> = Vec::new();
    let mut blank: u64 = 0;
    let mut j: usize = 0;
    assert(ls.take(0) =~= Seq::<Seq<char>>::empty());
    while j < lines.len()
        invariant
            ls == views(lines@),
            ls == split(out@, '\n'),
            j <= lines@.len(),
            (cleaned@, blank as nat) == tidy(ls.take(j as int)),
            blank <= j,
        decreases lines@.len() - j,
    {
        proof {
            assert(ls.take(j + 1 as int).drop_last() =~= ls.take(j as int));
            assert(ls[j as int] == lines@[j as int]@);
        }
        let line = trim_chars(&lines[j]);
        let mut keep = true;
        if line.len() == 0 {
            blank = blank + 1;
            if blank > 1 {
                keep = false;
            }
        } else {
            blank = 0;
        }
        if keep {
            let ghost before = cleaned@;
            let mut k: usize = 0;
            while k < line.len()
                invariant
                    k <= line@.len(),
                    cleaned@ == before + line@.take(k as int),
                decreases line@.len() - k,
            {
                cleaned.push(line[k]);
                k = k + 1;
                assert(cleaned@ =~= before + line@.take(k as int));
            }
            assert(line@.take(k as int) =~= line@);
            cleaned.push('\n');
        }
        j = j + 1;
    }
    assert(ls.take(j as int) =~= ls);
    let result = trim_chars(&cleaned);
    string_of(&result)
}

/// An app's description as plain text; empty when it has none.
pub fn description_text(app: &App) -> (s: String)
    ensures
        s@ == plain_text(match opt_view(app.description) {
            Some(d) => d,
            None => Seq::empty(),
        }),
{
    match &app.description {
        Some(d) => strip_markup(d.as_str()),
        None => {
            proof {
                reveal_strlit("");
            }
            strip_markup("")
        },
    }
}

// ---------------------------------------------------------------------
// The permission panel.
// ---------------------------------------------------------------------

/// The grade a known sandbox earns.
pub open spec fn sandbox_grade(sandbox: Option<&Sandbox>) -> Option<Risk> {
    match sandbox {
        Some(s) => Some(sandbox_risk(s@)),
        None => None,
    }
}

/// Whether the panel lists any permission.
pub fn has_rows(sandbox: Option<&Sandbox>) -> (b: bool)
    ensures
        b == (sandbox matches Some(s) && s@.len() > 0),
{
    match sandbox {
        Some(s) => !s.is_empty(),
        None => false,
    }
}

/// The panel's badge: "Not sandboxed" for a format with no sandbox at all,
/// the grade when the sandbox is known, "Unknown" otherwise.
pub fn badge_label(sandbox: Option<&Sandbox>, unconfined: bool) -> (s: String)
    ensures
        s@ == (if unconfined {
            "Not sandboxed"@
        } else {
            match sandbox_grade(sandbox) {
                Some(r) => risk_label(r),
                None => "Unknown"@,
            }
        }),
{
    if unconfined {
        return "Not sandboxed".to_owned();
    }
    match sandbox {
        Some(s) => s.risk().label().to_owned(),
        None => "Unknown".to_owned(),
    }
}

/// The badge's icon.
pub fn badge_icon(sandbox: Option<&Sandbox>, unconfined: bool) -> (s: &'static str)
    ensures
        s@ == (match sandbox_grade(sandbox) {
            Some(r) => if !unconfined {
                risk_icon(r)
            } else {
                "dialog-question-symbolic"@
            },
            None => "dialog-question-symbolic"@,
        }),
{
    match sandbox {
        Some(s) => if !unconfined {
            s.risk().icon()
        } else {
            "dialog-question-symbolic"
        },
        None => "dialog-question-symbolic",
    }
}

/// The badge's style classes.
pub fn badge_classes(sandbox: Option<&Sandbox>, unconfined: bool) -> (v: Vec<&'static str>)
    ensures
        v@.len() == 2,
        v@[0]@ == "risk-badge"@,
        v@[1]@ == (match sandbox_grade(sandbox) {
            Some(r) => if !unconfined {
                risk_css_class(r)
            } else {
                "risk-unknown"@
            },
            None => "risk-unknown"@,
        }),
{
    let variant = match sandbox {
        Some(s) => if !unconfined {
            s.risk().css_class()
        } else {
            "risk-unknown"
        },
        None => "risk-unknown",
    };
    vec!["risk-badge", variant]
}

/// The sentence under the badge.
pub fn explanation(sandbox: Option<&Sandbox>, unconfined: bool) -> (s: String)
    ensures
        s@ == (if unconfined {
            "This package format provides no sandbox. Once installed, it runs with the same access to your files as you do."@
        } else {
            match sandbox {
                Some(sb) => risk_summary(sandbox_risk(sb@)) + " "@ + headline_text(sb@),
                None => "AppsScope could not read this app's permissions."@,
            }
        }),
{
    if unconfined {
        return "This package format provides no sandbox. Once installed, it runs with the same access to your files as you do.".to_owned();
    }
    match sandbox {
        Some(sb) => {
            let mut s = sb.risk().summary().to_owned();
            push_str(&mut s, " ");
            let h = sb.headline();
            push_str(&mut s, h.as_str());
            s
        },
        None => "AppsScope could not read this app's permissions.".to_owned(),
    }
}

// ---------------------------------------------------------------------
// The disclosure before an install.
// ---------------------------------------------------------------------

/// The disclosure's heading.
pub fn consent_heading(risk: Option<Risk>) -> (s: &'static str)
    ensures
        s@ == (match risk {
            Some(Risk::Critical) => "This app is not sandboxed"@,
            Some(Risk::Caution) => "Before you install"@,
            Some(Risk::Safe) => "Install this app?"@,
            None => "Permissions unknown"@,
        }),
{
    match risk {
        Some(Risk::Critical) => "This app is not sandboxed",
        Some(Risk::Caution) => "Before you install",
        Some(Risk::Safe) => "Install this app?",
        None => "Permissions unknown",
    }
}

/// The disclosure's text about the app `app_id`.
pub fn consent_body(app_id: &str, risk: Option<Risk>) -> (s: String)
    ensures
        s@ == (match risk {
            Some(Risk::Critical) => app_id@
                + " can access files and services outside its sandbox. Review what it will be able to do:"@,
            Some(Risk::Caution) => app_id@ + " will be able to do the following:"@,
            Some(Risk::Safe) => app_id@
                + " runs fully confined and cannot reach your personal files."@,
            None => "AppsScope could not read the permissions for "@ + app_id@
                + ". It may be able to access files outside its sandbox."@,
        }),
{
    match risk {
        Some(Risk::Critical) => {
            let mut s = app_id.to_owned();
            push_str(
                &mut s,
                " can access files and services outside its sandbox. Review what it will be able to do:",
            );
            s
        },
        Some(Risk::Caution) => {
            let mut s = app_id.to_owned();
            push_str(&mut s, " will be able to do the following:");
            s
        },
        Some(Risk::Safe) => {
            let mut s = app_id.to_owned();
            push_str(&mut s, " runs fully confined and cannot reach your personal files.");
            s
        },
        None => {
            let mut s = "AppsScope could not read the permissions for ".to_owned();
            push_str(&mut s, app_id);
            push_str(&mut s, ". It may be able to access files outside its sandbox.");
            s
        },
    }
}

/// Whether the install button is styled as destructive rather than
/// suggested: a risky or unknown install should not invite a reflexive
/// click.
pub fn install_is_destructive(risk: Option<Risk>) -> (b: bool)
    ensures
        b == (risk is None || risk == Some(Risk::Critical)),
{
    match risk {
        Some(Risk::Critical) | None => true,
        _ => false,
    }
}

/// Whether a permission warrants attention before an install.
pub open spec fn is_notable(p: PermissionView) -> bool {
    p.risk != Risk::Safe
}

/// The permissions worth listing before an install, highest grade first;
/// the harmless ones would bury the signal.
pub fn notable_permissions(sandbox: &Sandbox) -> (v: Vec<&Permission>)
    ensures
        v@.map_values(|p: &Permission| p@) == sorted_view(sandbox@).filter(
            |p: PermissionView| is_notable(p),
        ),
{
    let all = sandbox.sorted();
    let ghost sv = all@.map_values(|p: &Permission| p@);
    let mut out: Vec<&Permission> = Vec::new();
    let mut i: usize = 0;
    proof {
        assert(sv.take(0).filter(|p: PermissionView| is_notable(p)) =~= Seq::<
            PermissionView,
        >::empty()) by {
            reveal(Seq::filter);
        }
        assert(out@.map_values(|p: &Permission| p@) =~= Seq::<PermissionView>::empty());
    }
    while i < all.len()
        invariant
            sv == all@.map_values(|p: &Permission| p@),
            i <= all@.len(),
            out@.map_values(|p: &Permission| p@) == sv.take(i as int).filter(
                |p: PermissionView| is_notable(p),
            ),
        decreases all@.len() - i,
    {
        let p = all[i];
        proof {
            assert(sv.take(i + 1 as int).drop_last() =~= sv.take(i as int));
            assert(sv[i as int] == p@);
            reveal(Seq::filter);
        }
        if p.risk.rank() > 0 {
            let ghost before = out@;
            out.push(p);
            assert(out@.map_values(|p: &Permission| p@) =~= before.map_values(
                |p: &Permission| p@,
            ).push(p@));
        }
        i = i + 1;
    }
    assert(sv.take(i as int) =~= sv);
    out
}

/// Permissions listed in the disclosure; the rest are counted.
pub const CONSENT_SHOWN: usize = 6;

/// The line after the listed permissions, when some are left out.
pub fn more_permissions_line(notable: usize) -> (s: Option<String>)
    ensures
        notable <= CONSENT_SHOWN ==> s is None,
        notable > CONSENT_SHOWN ==> (s matches Some(t) && t@ == "and "@ + decimal(
            (notable - CONSENT_SHOWN) as nat,
        ) + " more — see the app page for the full list"@),
{
    if notable <= CONSENT_SHOWN {
        return None;
    }
    let mut s = "and ".to_owned();
    push_decimal(&mut s, (notable - CONSENT_SHOWN) as u64);
    push_str(&mut s, " more — see the app page for the full list");
    Some(s)
}

/// Dependencies listed in a plan summary; the rest are counted.
pub const PLAN_SHOWN: usize = 4;

/// The line after the listed dependencies, when some are left out.
pub fn more_dependencies_line(dependencies: usize) -> (s: Option<String>)
    ensures
        dependencies <= PLAN_SHOWN ==> s is None,
        dependencies > PLAN_SHOWN ==> (s matches Some(t) && t@ == "and "@ + decimal(
            (dependencies - PLAN_SHOWN) as nat,
        ) + " more"@),
{
    if dependencies <= PLAN_SHOWN {
        return None;
    }
    let mut s = "and ".to_owned();
    push_decimal(&mut s, (dependencies - PLAN_SHOWN) as u64);
    push_str(&mut s, " more");
    Some(s)
}

} // verus!
