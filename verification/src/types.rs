//! Domain types shared by every backend and the interface.
//!
//! These are deliberately backend-agnostic: a Flatpak ref, a deb, and an
//! AppImage all collapse into the same `App`.

use vstd::prelude::*;
use crate::sandbox::Sandbox;
use crate::text::push_str;

verus! {

/// Which package system an app comes from.
#[derive(Debug, Clone, Copy, PartialEq, Eq, Structural, Hash, PartialOrd, Ord)]
pub enum BackendId {
    Flatpak,
    PackageKit,
    AppImage,
}

/// Short lowercase name of a backend, used in cache keys and on disk.
pub open spec fn backend_name(b: BackendId) -> Seq<char> {
    match b {
        BackendId::Flatpak => "flatpak"@,
        BackendId::PackageKit => "packagekit"@,
        BackendId::AppImage => "appimage"@,
    }
}

/// Name shown to users when the same app exists in several backends.
pub open spec fn backend_display_name(b: BackendId) -> Seq<char> {
    match b {
        BackendId::Flatpak => "Flatpak"@,
        BackendId::PackageKit => "System"@,
        BackendId::AppImage => "AppImage"@,
    }
}

/// Style class for the format pill.
pub open spec fn backend_css_class(b: BackendId) -> Seq<char> {
    match b {
        BackendId::Flatpak => "format-flatpak"@,
        BackendId::PackageKit => "format-system"@,
        BackendId::AppImage => "format-appimage"@,
    }
}

impl BackendId {
    /// Short lowercase name, used in cache keys and on disk.
    pub fn as_str(self) -> (s: &'static str)
        ensures
            s@ == backend_name(self),
    {
        match self {
            BackendId::Flatpak => "flatpak",
            BackendId::PackageKit => "packagekit",
            BackendId::AppImage => "appimage",
        }
    }

    /// Name shown to users when the same app exists in several backends.
    pub fn display_name(self) -> (s: &'static str)
        ensures
            s@ == backend_display_name(self),
    {
        match self {
            BackendId::Flatpak => "Flatpak",
            BackendId::PackageKit => "System",
            BackendId::AppImage => "AppImage",
        }
    }

    /// Short label for the format pill shown on every app.
    ///
    /// "System" rather than "deb" because the PackageKit backend covers apt,
    /// dnf, pacman and zypper.
    pub fn badge_label(self) -> (s: &'static str)
        ensures
            s@ == backend_display_name(self),
    {
        match self {
            BackendId::Flatpak => "Flatpak",
            BackendId::PackageKit => "System",
            BackendId::AppImage => "AppImage",
        }
    }

    /// Style class for the format pill, so formats are colour-coded.
    pub fn css_class(self) -> (s: &'static str)
        ensures
            s@ == backend_css_class(self),
    {
        match self {
            BackendId::Flatpak => "format-flatpak",
            BackendId::PackageKit => "format-system",
            BackendId::AppImage => "format-appimage",
        }
    }
}

/// Uniquely identifies one installable thing.
///
/// `id` is whatever the backend uses natively — a Flatpak app id, a deb
/// package name, an AppImage path.
#[derive(Debug, Clone)]
pub struct AppRef {
    pub backend: BackendId,
    pub id: String,
    /// Remote / repo / origin the app came from, if the backend has one.
    pub origin: Option<String>,
}

/// The origin of an app, as plain characters.
pub open spec fn origin_view(o: Option<String>) -> Option<Seq<char>> {
    match o {
        Some(s) => Some(s@),
        None => None,
    }
}

impl AppRef {
    pub fn new(backend: BackendId, id: String) -> (r: AppRef)
        ensures
            r.backend == backend,
            r.id@ == id@,
            r.origin is None,
    {
        AppRef { backend, id, origin: None }
    }

    pub fn with_origin(self, origin: String) -> (r: AppRef)
        ensures
            r.backend == self.backend,
            r.id@ == self.id@,
            origin_view(r.origin) == Some(origin@),
    {
        AppRef { backend: self.backend, id: self.id, origin: Some(origin) }
    }

    /// `backend:id`, the form used in logs and messages.
    pub fn text(&self) -> (s: String)
        ensures
            s@ == backend_name(self.backend) + ":"@ + self.id@,
    {
        let mut s = String::new();
        push_str(&mut s, self.backend.as_str());
        push_str(&mut s, ":");
        push_str(&mut s, self.id.as_str());
        s
    }
}

/// A single screenshot from AppStream metadata.
#[derive(Debug, Clone)]
pub struct Screenshot {
    pub url: String,
    pub caption: Option<String>,
    /// AppStream marks exactly one screenshot as the default.
    pub is_default: bool,
}

/// One entry in an app's version history.
#[derive(Debug, Clone)]
pub struct Release {
    pub version: String,
    /// Unix timestamp.
    pub timestamp: Option<i64>,
    /// Changelog; may contain a small subset of HTML.
    pub description: Option<String>,
}

/// Where an icon comes from.
#[derive(Debug, Clone)]
pub enum IconSource {
    /// Named icon in the current icon theme.
    Themed(String),
    /// Already-cached absolute path.
    Cached(String),
    /// Needs downloading.
    Remote(String),
}

/// An app as presented to the user, merged from package data and AppStream.
#[derive(Debug, Clone)]
pub struct App {
    pub app_ref: AppRef,
    pub name: String,
    pub summary: Option<String>,
    pub description: Option<String>,
    pub developer: Option<String>,
    pub license: Option<String>,
    pub categories: Vec<String>,
    pub icon: Option<IconSource>,
    pub screenshots: Vec<Screenshot>,
    pub releases: Vec<Release>,
    pub version: Option<String>,
    /// Bytes to download, when the backend can say cheaply.
    pub download_size: Option<u64>,
    /// Bytes on disk after install.
    pub installed_size: Option<u64>,
    /// Sandbox profile, when known. `None` means "not looked up yet", not
    /// "unconfined".
    pub sandbox: Option<Sandbox>,
}

/// An installed app, plus whatever the backend knows about updates.
#[derive(Debug, Clone)]
pub struct InstalledApp {
    pub app: App,
    pub installed_version: Option<String>,
    /// Set when a newer version is available.
    pub update: Option<Update>,
}

#[derive(Debug, Clone)]
pub struct Update {
    pub version: String,
    pub download_size: Option<u64>,
    /// Changelog entries between installed and available version.
    pub releases: Vec<Release>,
}

/// Coarse stage of a transaction.
#[derive(Debug, Clone, Copy, PartialEq, Eq, Structural)]
pub enum Phase {
    /// Working out what to install, pulling in dependencies and runtimes.
    Resolving,
    Downloading,
    Installing,
    Removing,
    /// Deploying, updating the desktop database, triggers.
    Finalizing,
}

/// The label shown above the progress bar for each phase.
pub open spec fn phase_label(p: Phase) -> Seq<char> {
    match p {
        Phase::Resolving => "Preparing"@,
        Phase::Downloading => "Downloading"@,
        Phase::Installing => "Installing"@,
        Phase::Removing => "Removing"@,
        Phase::Finalizing => "Finishing up"@,
    }
}

impl Phase {
    pub fn label(self) -> (s: &'static str)
        ensures
            s@ == phase_label(self),
    {
        match self {
            Phase::Resolving => "Preparing",
            Phase::Downloading => "Downloading",
            Phase::Installing => "Installing",
            Phase::Removing => "Removing",
            Phase::Finalizing => "Finishing up",
        }
    }
}

} // verus!
