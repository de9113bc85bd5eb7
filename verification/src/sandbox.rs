//! Sandbox permissions — what an app can actually reach on your machine.
//!
//! Permissions are graded, phrased in plain language, and explained in terms
//! of what someone stands to lose — not in terms of the flag that produced
//! them.

use vstd::prelude::*;
use crate::text::{decimal, push_decimal};

verus! {

/// How much a permission actually gives away.
#[derive(Debug, Clone, Copy, PartialEq, Eq, Structural, Hash, PartialOrd, Ord)]
pub enum Risk {
    /// Confined to the sandbox, or a capability with no meaningful reach.
    Safe,
    /// Real access, but bounded and usually expected for the app's purpose.
    Caution,
    /// Defeats the sandbox, or reaches personal data wholesale.
    Critical,
}

/// Position of a risk grade in the order `Safe < Caution < Critical`.
pub open spec fn rank(r: Risk) -> nat {
    match r {
        Risk::Safe => 0,
        Risk::Caution => 1,
        Risk::Critical => 2,
    }
}

pub open spec fn risk_label(r: Risk) -> Seq<char> {
    match r {
        Risk::Safe => "Sandboxed"@,
        Risk::Caution => "Limited access"@,
        Risk::Critical => "Full access"@,
    }
}

pub open spec fn risk_summary(r: Risk) -> Seq<char> {
    match r {
        Risk::Safe => "This app runs fully confined and cannot reach your files."@,
        Risk::Caution => "This app can reach some things outside its sandbox."@,
        Risk::Critical => "This app can access your personal files and is not meaningfully sandboxed."@,
    }
}

pub open spec fn risk_css_class(r: Risk) -> Seq<char> {
    match r {
        Risk::Safe => "risk-safe"@,
        Risk::Caution => "risk-caution"@,
        Risk::Critical => "risk-critical"@,
    }
}

pub open spec fn risk_icon(r: Risk) -> Seq<char> {
    match r {
        Risk::Safe => "security-high-symbolic"@,
        Risk::Caution => "security-medium-symbolic"@,
        Risk::Critical => "security-low-symbolic"@,
    }
}

impl Risk {
    /// Position in the order `Safe < Caution < Critical`.
    pub fn rank(self) -> (n: u8)
        ensures
            n as nat == rank(self),
    {
        match self {
            Risk::Safe => 0,
            Risk::Caution => 1,
            Risk::Critical => 2,
        }
    }

    pub fn label(self) -> (s: &'static str)
        ensures
            s@ == risk_label(self),
    {
        match self {
            Risk::Safe => "Sandboxed",
            Risk::Caution => "Limited access",
            Risk::Critical => "Full access",
        }
    }

    /// One line explaining the grade as a whole.
    pub fn summary(self) -> (s: &'static str)
        ensures
            s@ == risk_summary(self),
    {
        match self {
            Risk::Safe => "This app runs fully confined and cannot reach your files.",
            Risk::Caution => "This app can reach some things outside its sandbox.",
            Risk::Critical => "This app can access your personal files and is not meaningfully sandboxed.",
        }
    }

    /// Style class for the badge.
    pub fn css_class(self) -> (s: &'static str)
        ensures
            s@ == risk_css_class(self),
    {
        match self {
            Risk::Safe => "risk-safe",
            Risk::Caution => "risk-caution",
            Risk::Critical => "risk-critical",
        }
    }

    pub fn icon(self) -> (s: &'static str)
        ensures
            s@ == risk_icon(self),
    {
        match self {
            Risk::Safe => "security-high-symbolic",
            Risk::Caution => "security-medium-symbolic",
            Risk::Critical => "security-low-symbolic",
        }
    }
}

/// The kinds of access we recognise and can explain.
///
/// Anything not covered lands in `Other` and is still shown — silently
/// dropping a permission we don't understand would be the one unforgivable
/// bug in a feature like this.
#[derive(Debug, Clone)]
pub enum PermissionKind {
    /// Full filesystem access — `filesystems=host`.
    HostFilesystem,
    /// Everything in your home directory — `filesystems=home`.
    HomeFilesystem,
    /// A specific path outside the sandbox.
    Filesystem(String),
    Network,
    /// X11 — any X11 client can read every other window's keystrokes.
    X11,
    Wayland,
    Audio,
    /// Unrestricted device access — `devices=all`, which includes webcams.
    AllDevices,
    /// GPU access. Ordinary for anything that draws.
    Gpu,
    /// Direct access to the session or system bus — a sandbox escape.
    SessionBus,
    SystemBus,
    /// Can drive Flatpak itself, i.e. can grant itself anything else.
    FlatpakEscape,
    /// Can read stored passwords and keys.
    Secrets,
    /// Interprocess communication with the host.
    Ipc,
    Other(String),
}

/// A permission kind with its text as plain characters.
pub enum KindView {
    HostFilesystem,
    HomeFilesystem,
    Filesystem(Seq<char>),
    Network,
    X11,
    Wayland,
    Audio,
    AllDevices,
    Gpu,
    SessionBus,
    SystemBus,
    FlatpakEscape,
    Secrets,
    Ipc,
    Other(Seq<char>),
}

impl View for PermissionKind {
    type V = KindView;

    open spec fn view(&self) -> KindView {
        match self {
            PermissionKind::HostFilesystem => KindView::HostFilesystem,
            PermissionKind::HomeFilesystem => KindView::HomeFilesystem,
            PermissionKind::Filesystem(p) => KindView::Filesystem(p@),
            PermissionKind::Network => KindView::Network,
            PermissionKind::X11 => KindView::X11,
            PermissionKind::Wayland => KindView::Wayland,
            PermissionKind::Audio => KindView::Audio,
            PermissionKind::AllDevices => KindView::AllDevices,
            PermissionKind::Gpu => KindView::Gpu,
            PermissionKind::SessionBus => KindView::SessionBus,
            PermissionKind::SystemBus => KindView::SystemBus,
            PermissionKind::FlatpakEscape => KindView::FlatpakEscape,
            PermissionKind::Secrets => KindView::Secrets,
            PermissionKind::Ipc => KindView::Ipc,
            PermissionKind::Other(s) => KindView::Other(s@),
        }
    }
}

/// Which variant a kind is.
pub open spec fn kind_tag(k: KindView) -> int {
    match k {
        KindView::HostFilesystem => 0,
        KindView::HomeFilesystem => 1,
        KindView::Filesystem(_) => 2,
        KindView::Network => 3,
        KindView::X11 => 4,
        KindView::Wayland => 5,
        KindView::Audio => 6,
        KindView::AllDevices => 7,
        KindView::Gpu => 8,
        KindView::SessionBus => 9,
        KindView::SystemBus => 10,
        KindView::FlatpakEscape => 11,
        KindView::Secrets => 12,
        KindView::Ipc => 13,
        KindView::Other(_) => 14,
    }
}

proof fn lemma_same_tag(a: KindView, b: KindView)
    requires
        kind_tag(a) == kind_tag(b),
        kind_tag(a) != 2,
        kind_tag(a) != 14,
    ensures
        a == b,
{
    match a {
        KindView::HostFilesystem => {
            match b {
                KindView::HostFilesystem => {},
                _ => {},
            }
        },
        KindView::HomeFilesystem => {
            match b {
                KindView::HomeFilesystem => {},
                _ => {},
            }
        },
        KindView::Filesystem(_) => {},
        KindView::Network => {
            match b {
                KindView::Network => {},
                _ => {},
            }
        },
        KindView::X11 => {
            match b {
                KindView::X11 => {},
                _ => {},
            }
        },
        KindView::Wayland => {
            match b {
                KindView::Wayland => {},
                _ => {},
            }
        },
        KindView::Audio => {
            match b {
                KindView::Audio => {},
                _ => {},
            }
        },
        KindView::AllDevices => {
            match b {
                KindView::AllDevices => {},
                _ => {},
            }
        },
        KindView::Gpu => {
            match b {
                KindView::Gpu => {},
                _ => {},
            }
        },
        KindView::SessionBus => {
            match b {
                KindView::SessionBus => {},
                _ => {},
            }
        },
        KindView::SystemBus => {
            match b {
                KindView::SystemBus => {},
                _ => {},
            }
        },
        KindView::FlatpakEscape => {
            match b {
                KindView::FlatpakEscape => {},
                _ => {},
            }
        },
        KindView::Secrets => {
            match b {
                KindView::Secrets => {},
                _ => {},
            }
        },
        KindView::Ipc => {
            match b {
                KindView::Ipc => {},
                _ => {},
            }
        },
        KindView::Other(_) => {},
    }
}

impl PermissionKind {
    /// Which variant this kind is.
    fn tag(&self) -> (t: u8)
        ensures
            t as int == kind_tag(self@),
    {
        match self {
            PermissionKind::HostFilesystem => 0,
            PermissionKind::HomeFilesystem => 1,
            PermissionKind::Filesystem(_) => 2,
            PermissionKind::Network => 3,
            PermissionKind::X11 => 4,
            PermissionKind::Wayland => 5,
            PermissionKind::Audio => 6,
            PermissionKind::AllDevices => 7,
            PermissionKind::Gpu => 8,
            PermissionKind::SessionBus => 9,
            PermissionKind::SystemBus => 10,
            PermissionKind::FlatpakEscape => 11,
            PermissionKind::Secrets => 12,
            PermissionKind::Ipc => 13,
            PermissionKind::Other(_) => 14,
        }
    }

    /// Whether two kinds describe the same capability.
    pub fn same_as(&self, other: &PermissionKind) -> (r: bool)
        ensures
            r == (self@ == other@),
    {
        let t = self.tag();
        if t != other.tag() {
            return false;
        }
        match self {
            PermissionKind::Filesystem(a) => match other {
                PermissionKind::Filesystem(b) => a.eq(b),
                _ => false,
            },
            PermissionKind::Other(a) => match other {
                PermissionKind::Other(b) => a.eq(b),
                _ => false,
            },
            _ => {
                proof {
                    lemma_same_tag(self@, other@);
                }
                true
            },
        }
    }
}

/// One permission, phrased for a human.
#[derive(Debug, Clone)]
pub struct Permission {
    pub kind: PermissionKind,
    pub risk: Risk,
    /// Short plain-language statement of what the app can do.
    pub summary: String,
    /// Why it matters — the consequence, not the mechanism.
    pub detail: String,
    /// The override token used to revoke this, e.g. `filesystems:host`.
    /// `None` when the permission can't be revoked without breaking the app.
    pub override_key: Option<String>,
    /// Whether the user has already revoked it via an override.
    pub revoked: bool,
}

/// A permission with its text as plain characters.
pub struct PermissionView {
    pub kind: KindView,
    pub risk: Risk,
    pub summary: Seq<char>,
    pub detail: Seq<char>,
    pub override_key: Option<Seq<char>>,
    pub revoked: bool,
}

impl View for Permission {
    type V = PermissionView;

    open spec fn view(&self) -> PermissionView {
        PermissionView {
            kind: self.kind@,
            risk: self.risk,
            summary: self.summary@,
            detail: self.detail@,
            override_key: match self.override_key {
                Some(k) => Some(k@),
                None => None,
            },
            revoked: self.revoked,
        }
    }
}

/// An app's complete sandbox profile.
#[derive(Debug, Clone)]
pub struct Sandbox {
    pub permissions: Vec<Permission>,
}

/// The permissions of a list, each as plain characters.
pub open spec fn perm_views(ps: Seq<Permission>) -> Seq<PermissionView> {
    ps.map_values(|p: Permission| p@)
}

impl View for Sandbox {
    type V = Seq<PermissionView>;

    open spec fn view(&self) -> Seq<PermissionView> {
        perm_views(self.permissions@)
    }
}

/// Whether some permission that has not been revoked carries grade `r`.
pub open spec fn has_active(ps: Seq<PermissionView>, r: Risk) -> bool {
    exists|i: int| 0 <= i < ps.len() && !ps[i].revoked && ps[i].risk == r
}

/// The overall grade: the worst permission that has not been revoked, or
/// `Safe` when there is none.
pub open spec fn sandbox_risk(ps: Seq<PermissionView>) -> Risk {
    if has_active(ps, Risk::Critical) {
        Risk::Critical
    } else if has_active(ps, Risk::Caution) {
        Risk::Caution
    } else {
        Risk::Safe
    }
}

/// Whether `p` carries grade `r`.
pub open spec fn has_risk(p: PermissionView, r: Risk) -> bool {
    p.risk == r
}

/// The permissions, highest grade first, each grade in the order declared.
pub open spec fn sorted_view(ps: Seq<PermissionView>) -> Seq<PermissionView> {
    ps.filter(|p: PermissionView| has_risk(p, Risk::Critical))
        + ps.filter(|p: PermissionView| has_risk(p, Risk::Caution))
        + ps.filter(|p: PermissionView| has_risk(p, Risk::Safe))
}

/// Whether `p` is a critical permission still in force.
pub open spec fn active_critical(p: PermissionView) -> bool {
    !p.revoked && p.risk == Risk::Critical
}

/// How many critical permissions are still in force.
pub open spec fn critical_count(ps: Seq<PermissionView>) -> nat {
    ps.filter(|p: PermissionView| active_critical(p)).len()
}

/// The one-line verdict for list rows and cards.
pub open spec fn headline_text(ps: Seq<PermissionView>) -> Seq<char> {
    match sandbox_risk(ps) {
        Risk::Safe => "Fully sandboxed"@,
        Risk::Caution => "Limited access outside its sandbox"@,
        Risk::Critical => if critical_count(ps) == 1 {
            "1 permission defeats the sandbox"@
        } else {
            decimal(critical_count(ps)) + " permissions defeat the sandbox"@
        },
    }
}

impl Sandbox {
    /// A profile with no permissions at all.
    pub fn empty() -> (s: Sandbox)
        ensures
            s@.len() == 0,
    {
        Sandbox { permissions: Vec::new() }
    }

    /// The worst permission decides the overall grade.
    ///
    /// Deliberately not an average: one sandbox escape is not offset by ten
    /// harmless capabilities. Revoked permissions don't count — that's the
    /// point of revoking them.
    pub fn risk(&self) -> (r: Risk)
        ensures
            r == sandbox_risk(self@),
    {
        let n = self.permissions.len();
        let mut best: Risk = Risk::Safe;
        let mut i: usize = 0;
        while i < n
            invariant
                n == self@.len(),
                i <= n,
                best == sandbox_risk(self@.take(i as int)),
            decreases n - i,
        {
            let p = &self.permissions[i];
            let ghost pre = self@.take(i as int);
            let ghost now = self@.take(i + 1 as int);
            assert(now == pre.push(p@));
            if !p.revoked && p.risk.rank() > best.rank() {
                best = p.risk;
            }
            proof {
                assert(now[i as int] == p@);
                assert forall|r: Risk| #[trigger] has_active(now, r) <==> (has_active(pre, r) || (!p.revoked && p.risk == r)) by {
                    if has_active(now, r) {
                        let j = choose|j: int| 0 <= j < now.len() && !now[j].revoked && now[j].risk == r;
                        if j < i {
                            assert(pre[j] == now[j]);
                        }
                    }
                    if has_active(pre, r) {
                        let j = choose|j: int| 0 <= j < pre.len() && !pre[j].revoked && pre[j].risk == r;
                        assert(now[j] == pre[j]);
                    }
                }
            }
            i = i + 1;
        }
        assert(self@.take(n as int) == self@);
        best
    }

    /// Permissions worth showing first — highest risk, then stable order.
    pub fn sorted(&self) -> (out: Vec<&Permission>)
        ensures
            out@.map_values(|p: &Permission| p@) == sorted_view(self@),
    {
        let mut out: Vec<&Permission> = Vec::new();
        let ghost ps = self@;
        self.collect_grade(&mut out, Risk::Critical);
        self.collect_grade(&mut out, Risk::Caution);
        self.collect_grade(&mut out, Risk::Safe);
        out
    }

    /// Append, in order, every permission of grade `r`.
    fn collect_grade<'a>(&'a self, out: &mut Vec<&'a Permission>, r: Risk)
        ensures
            final(out)@.map_values(|p: &Permission| p@)
                == old(out)@.map_values(|p: &Permission| p@)
                    + self@.filter(|p: PermissionView| has_risk(p, r)),
    {
        let ghost start = old(out)@.map_values(|p: &Permission| p@);
        let n = self.permissions.len();
        let mut i: usize = 0;
        assert(self@.take(0).filter(|p: PermissionView| has_risk(p, r)) == Seq::<PermissionView>::empty()) by {
            reveal(Seq::filter);
        }
        assert(out@.map_values(|p: &Permission| p@) =~= start + Seq::<PermissionView>::empty());
        while i < n
            invariant
                n == self@.len(),
                i <= n,
                out@.map_values(|p: &Permission| p@)
                    == start + self@.take(i as int).filter(|p: PermissionView| has_risk(p, r)),
            decreases n - i,
        {
            let p = &self.permissions[i];
            let ghost pre = self@.take(i as int);
            let ghost now = self@.take(i + 1 as int);
            let ghost before = out@;
            proof {
                assert(now.drop_last() == pre);
                assert(now.last() == p@);
                reveal(Seq::filter);
            }
            if p.risk == r {
                out.push(p);
                assert(out@.map_values(|q: &Permission| q@) =~= before.map_values(|q: &Permission| q@).push(p@));
            }
            i = i + 1;
        }
        assert(self@.take(n as int) == self@);
    }

    pub fn is_empty(&self) -> (b: bool)
        ensures
            b == (self@.len() == 0),
    {
        self.permissions.len() == 0
    }

    /// A one-line verdict for list rows and cards.
    pub fn headline(&self) -> (s: String)
        ensures
            s@ == headline_text(self@),
    {
        let risk = self.risk();
        match risk {
            Risk::Safe => "Fully sandboxed".to_owned(),
            Risk::Caution => "Limited access outside its sandbox".to_owned(),
            Risk::Critical => {
                let critical = self.critical_count();
                if critical == 1 {
                    "1 permission defeats the sandbox".to_owned()
                } else {
                    let mut s = String::new();
                    push_decimal(&mut s, critical as u64);
                    crate::text::push_str(&mut s, " permissions defeat the sandbox");
                    s
                }
            },
        }
    }

    /// How many critical permissions are still in force.
    pub fn critical_count(&self) -> (n: usize)
        ensures
            n as nat == critical_count(self@),
    {
        let n = self.permissions.len();
        let mut count: usize = 0;
        let mut i: usize = 0;
        assert(self@.take(0).filter(|p: PermissionView| active_critical(p)).len() == 0) by {
            reveal(Seq::filter);
        }
        while i < n
            invariant
                n == self@.len(),
                i <= n,
                count <= i,
                count as nat == self@.take(i as int).filter(|p: PermissionView| active_critical(p)).len(),
            decreases n - i,
        {
            let p = &self.permissions[i];
            proof {
                assert(self@.take(i + 1 as int).drop_last() == self@.take(i as int));
                assert(self@.take(i + 1 as int).last() == p@);
                reveal(Seq::filter);
            }
            if !p.revoked && p.risk == Risk::Critical {
                count = count + 1;
            }
            i = i + 1;
        }
        assert(self@.take(n as int) == self@);
        count
    }
}


/// The overall grade is at least the grade of every permission still in
/// force, and it is the grade of one of them unless it is `Safe`.
pub proof fn law_risk_is_worst_active(ps: Seq<PermissionView>)
    ensures
        forall|i: int| 0 <= i < ps.len() && !ps[i].revoked ==> rank(#[trigger] ps[i].risk) <= rank(sandbox_risk(ps)),
        sandbox_risk(ps) == Risk::Safe || has_active(ps, sandbox_risk(ps)),
{
    assert forall|i: int| 0 <= i < ps.len() && !ps[i].revoked implies rank(#[trigger] ps[i].risk) <= rank(sandbox_risk(ps)) by {
        if ps[i].risk == Risk::Critical {
            assert(has_active(ps, Risk::Critical));
        } else if ps[i].risk == Risk::Caution {
            assert(has_active(ps, Risk::Caution));
        }
    }
}

/// Revoking permissions never raises the overall grade: if `after` is
/// `before` with some more permissions revoked, its grade is no higher.
pub proof fn law_revoking_never_raises_risk(before: Seq<PermissionView>, after: Seq<PermissionView>)
    requires
        before.len() == after.len(),
        forall|i: int| 0 <= i < before.len() ==> (#[trigger] after[i]).risk == before[i].risk,
        forall|i: int| 0 <= i < before.len() ==> (#[trigger] before[i]).revoked ==> after[i].revoked,
    ensures
        rank(sandbox_risk(after)) <= rank(sandbox_risk(before)),
{
    assert forall|r: Risk| has_active(after, r) implies has_active(before, r) by {
        let j = choose|j: int| 0 <= j < after.len() && !after[j].revoked && after[j].risk == r;
        assert(!before[j].revoked && before[j].risk == r);
    }
}

/// Sorting permissions by grade neither drops nor duplicates any of them.
pub proof fn law_sorted_is_permutation(ps: Seq<PermissionView>)
    ensures
        sorted_view(ps).to_multiset() == ps.to_multiset(),
    decreases ps.len(),
{
    broadcast use vstd::seq_lib::group_to_multiset_ensures, vstd::seq_lib::lemma_multiset_commutative, vstd::multiset::group_multiset_axioms;

    let fc = |p: PermissionView| has_risk(p, Risk::Critical);
    let fa = |p: PermissionView| has_risk(p, Risk::Caution);
    let fs = |p: PermissionView| has_risk(p, Risk::Safe);
    if ps.len() == 0 {
        reveal(Seq::filter);
        assert(sorted_view(ps) =~= Seq::<PermissionView>::empty());
    } else {
        let q = ps.drop_last();
        let x = ps.last();
        law_sorted_is_permutation(q);
        assert(q.push(x) == ps);
        reveal(Seq::filter);
        assert(ps.filter(fc) == (if fc(x) { q.filter(fc).push(x) } else { q.filter(fc) }));
        assert(ps.filter(fa) == (if fa(x) { q.filter(fa).push(x) } else { q.filter(fa) }));
        assert(ps.filter(fs) == (if fs(x) { q.filter(fs).push(x) } else { q.filter(fs) }));
        let mc = q.filter(fc).to_multiset();
        let ma = q.filter(fa).to_multiset();
        let ms = q.filter(fs).to_multiset();
        assert(sorted_view(q).to_multiset() =~= mc.add(ma).add(ms));
        assert(sorted_view(ps).to_multiset() =~= ps.filter(fc).to_multiset().add(
            ps.filter(fa).to_multiset()).add(ps.filter(fs).to_multiset()));
        if x.risk == Risk::Critical {
            assert(sorted_view(ps).to_multiset() =~= mc.insert(x).add(ma).add(ms));
        } else if x.risk == Risk::Caution {
            assert(sorted_view(ps).to_multiset() =~= mc.add(ma.insert(x)).add(ms));
        } else {
            assert(sorted_view(ps).to_multiset() =~= mc.add(ma).add(ms.insert(x)));
        }
    }
}

/// Sorted permissions come highest grade first.
pub proof fn law_sorted_is_descending(ps: Seq<PermissionView>)
    ensures
        forall|i: int, j: int| 0 <= i < j < sorted_view(ps).len() ==>
            rank((#[trigger] sorted_view(ps)[i]).risk) >= rank((#[trigger] sorted_view(ps)[j]).risk),
{
    broadcast use vstd::seq_lib::group_filter_ensures;

    let c = ps.filter(|p: PermissionView| has_risk(p, Risk::Critical));
    let a = ps.filter(|p: PermissionView| has_risk(p, Risk::Caution));
    let s = ps.filter(|p: PermissionView| has_risk(p, Risk::Safe));
    let v = sorted_view(ps);
    assert(v == c + a + s);
    assert forall|i: int, j: int| 0 <= i < j < v.len() implies rank((#[trigger] v[i]).risk) >= rank((#[trigger] v[j]).risk) by {
        if i < c.len() {
            assert(v[i] == c[i]);
            assert(has_risk(c[i], Risk::Critical));
        } else if i < c.len() + a.len() {
            assert(v[i] == a[i - c.len()]);
            assert(has_risk(a[i - c.len()], Risk::Caution));
            if j < c.len() + a.len() {
                assert(v[j] == a[j - c.len()]);
                assert(has_risk(a[j - c.len()], Risk::Caution));
            } else {
                assert(v[j] == s[j - c.len() - a.len()]);
                assert(has_risk(s[j - c.len() - a.len()], Risk::Safe));
            }
        } else {
            assert(v[j] == s[j - c.len() - a.len()]);
            assert(has_risk(s[j - c.len() - a.len()], Risk::Safe));
            assert(v[i] == s[i - c.len() - a.len()]);
            assert(has_risk(s[i - c.len() - a.len()], Risk::Safe));
        }
    }
}

proof fn lemma_filter_risk_twice(ps: Seq<PermissionView>, r1: Risk, r2: Risk)
    ensures
        ps.filter(|p: PermissionView| has_risk(p, r1)).filter(|p: PermissionView| has_risk(p, r2))
            == (if r1 == r2 {
            ps.filter(|p: PermissionView| has_risk(p, r1))
        } else {
            Seq::<PermissionView>::empty()
        }),
    decreases ps.len(),
{
    reveal(Seq::filter);
    let f1 = |p: PermissionView| has_risk(p, r1);
    let f2 = |p: PermissionView| has_risk(p, r2);
    if ps.len() > 0 {
        let q = ps.drop_last();
        let x = ps.last();
        lemma_filter_risk_twice(q, r1, r2);
        assert(ps.filter(f1) == (if f1(x) { q.filter(f1).push(x) } else { q.filter(f1) }));
        if f1(x) {
            assert(q.filter(f1).push(x).drop_last() =~= q.filter(f1));
            assert(q.filter(f1).push(x).last() == x);
            assert(ps.filter(f1).filter(f2) == (if f2(x) { q.filter(f1).filter(f2).push(x) } else { q.filter(f1).filter(f2) }));
        }
    } else {
        assert(ps.filter(|p: PermissionView| has_risk(p, r1)) =~= Seq::<PermissionView>::empty());
        assert(ps.filter(|p: PermissionView| has_risk(p, r1)).filter(|p: PermissionView| has_risk(p, r2))
            =~= Seq::<PermissionView>::empty());
    }
}

/// Sorting is stable: the permissions of any one grade come out in the
/// order they were declared, revoked ones included.
pub proof fn law_sorted_keeps_order_within_grade(ps: Seq<PermissionView>, r: Risk)
    ensures
        sorted_view(ps).filter(|p: PermissionView| has_risk(p, r)) == ps.filter(|p: PermissionView| has_risk(p, r)),
{
    let fr = |p: PermissionView| has_risk(p, r);
    let c = ps.filter(|p: PermissionView| has_risk(p, Risk::Critical));
    let a = ps.filter(|p: PermissionView| has_risk(p, Risk::Caution));
    let s = ps.filter(|p: PermissionView| has_risk(p, Risk::Safe));
    Seq::filter_distributes_over_add(c + a, s, fr);
    Seq::filter_distributes_over_add(c, a, fr);
    lemma_filter_risk_twice(ps, Risk::Critical, r);
    lemma_filter_risk_twice(ps, Risk::Caution, r);
    lemma_filter_risk_twice(ps, Risk::Safe, r);
    assert(sorted_view(ps).filter(fr) =~= ps.filter(fr));
}

proof fn lemma_count_update(ps: Seq<PermissionView>, i: int, x: PermissionView)
    requires
        0 <= i < ps.len(),
    ensures
        critical_count(ps.update(i, x)) + (if active_critical(ps[i]) { 1int } else { 0 })
            == critical_count(ps) + (if active_critical(x) { 1int } else { 0 }),
    decreases ps.len(),
{
    reveal(Seq::filter);
    let f = |p: PermissionView| active_critical(p);
    let q = ps.update(i, x);
    if i == ps.len() - 1 {
        assert(q.drop_last() =~= ps.drop_last());
        assert(q.last() == x);
    } else {
        lemma_count_update(ps.drop_last(), i, x);
        assert(q.drop_last() =~= ps.drop_last().update(i, x));
        assert(q.last() == ps.last());
        assert(ps.drop_last()[i] == ps[i]);
    }
    assert(q.filter(f).len() == critical_count(q));
}

/// Only permissions in force count toward the headline: revoking a critical
/// permission that was in force lowers the count by exactly one, and
/// revoking or restoring any other leaves it as it was.
pub proof fn law_revoking_changes_the_count_once(ps: Seq<PermissionView>, i: int)
    requires
        0 <= i < ps.len(),
    ensures
        !ps[i].revoked && ps[i].risk == Risk::Critical ==> critical_count(
            ps.update(i, PermissionView { revoked: true, ..ps[i] }),
        ) + 1 == critical_count(ps),
        ps[i].risk != Risk::Critical ==> critical_count(
            ps.update(i, PermissionView { revoked: !ps[i].revoked, ..ps[i] }),
        ) == critical_count(ps),
{
    lemma_count_update(ps, i, PermissionView { revoked: true, ..ps[i] });
    lemma_count_update(ps, i, PermissionView { revoked: !ps[i].revoked, ..ps[i] });
}

/// A profile whose permissions are all revoked has no critical permission
/// in force, and its grade is `Safe`.
pub proof fn law_all_revoked_counts_nothing(ps: Seq<PermissionView>)
    requires
        forall|i: int| 0 <= i < ps.len() ==> (#[trigger] ps[i]).revoked,
    ensures
        critical_count(ps) == 0,
        sandbox_risk(ps) == Risk::Safe,
    decreases ps.len(),
{
    reveal(Seq::filter);
    if ps.len() > 0 {
        let q = ps.drop_last();
        assert forall|i: int| 0 <= i < q.len() implies (#[trigger] q[i]).revoked by {
            assert(q[i] == ps[i]);
        }
        law_all_revoked_counts_nothing(q);
        assert(ps[ps.len() - 1] == ps.last());
    }
    law_risk_is_worst_active(ps);
}

/// The grade labels tell the grades apart: no two grades share a label, and
/// none reads like the badge of an unsandboxed format or an unknown one.
pub proof fn law_labels_tell_grades_apart(a: Risk, b: Risk)
    ensures
        a != b ==> risk_label(a) != risk_label(b),
        risk_label(a) != "Not sandboxed"@,
        risk_label(a) != "Unknown"@,
{
    reveal_strlit("Sandboxed");
    reveal_strlit("Limited access");
    reveal_strlit("Full access");
    reveal_strlit("Not sandboxed");
    reveal_strlit("Unknown");
    assert("Sandboxed"@.len() != "Limited access"@.len());
    assert("Sandboxed"@.len() != "Full access"@.len());
    assert("Limited access"@.len() != "Full access"@.len());
    assert("Not sandboxed"@.len() != "Sandboxed"@.len() && "Not sandboxed"@.len() != "Limited access"@.len());
    assert("Not sandboxed"@[0] != "Full access"@[0]);
    assert("Unknown"@.len() != "Sandboxed"@.len() && "Unknown"@.len() != "Limited access"@.len()
        && "Unknown"@.len() != "Full access"@.len());
}

} // verus!
