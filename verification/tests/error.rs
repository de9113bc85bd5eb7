use appsscope::error::{backend_error, Error};
use appsscope::types::{AppRef, BackendId};

#[test]
fn each_error_has_its_message() {
    let unavailable = Error::BackendUnavailable { backend: "flatpak", reason: "no system installation".to_string() };
    assert_eq!(unavailable.message(), "flatpak is unavailable: no system installation");
    let missing = Error::NotFound(AppRef::new(BackendId::PackageKit, "gimp".to_string()));
    assert_eq!(missing.message(), "packagekit:gimp");
    assert_eq!(Error::NotAuthorized.message(), "authorization was declined");
    assert_eq!(Error::Network("timed out".to_string()).message(), "network error: timed out");
    let space = Error::OutOfSpace { needed: 1048576, available: 0 };
    assert_eq!(space.message(), "need 1048576 bytes but only 0 are free");
    assert_eq!(Error::Cancelled.message(), "cancelled");
    assert_eq!(Error::Backend("Package is locked".to_string()).message(), "Package is locked");
    assert_eq!(backend_error("install", "broken").message(), "install: broken");
}

#[test]
fn io_errors_show_their_own_text() {
    let io = std::io::Error::new(std::io::ErrorKind::Other, "disk on fire");
    assert_eq!(Error::Io(io).message(), "disk on fire");
}
