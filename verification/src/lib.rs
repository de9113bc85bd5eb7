//! Verified core of AppsScope, a software centre that shows what an app can
//! reach before it is installed.

pub mod activity;
pub mod catalog;
pub mod desktop;
pub mod error;
pub mod flatpak;
pub mod images;
pub mod navigation;
pub mod packagekit;
pub mod permissions;
pub mod plan;
pub mod registry;
pub mod presentation;
pub mod sandbox;
pub mod text;
pub mod types;
