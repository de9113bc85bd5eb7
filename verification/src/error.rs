//! Errors surfaced to the interface.
//!
//! Variants are chosen by *what the user can do about it*, not by where they
//! came from: the interface switches on these to decide between a retry
//! button, an authorisation prompt, and a plain error message.

use vstd::prelude::*;
use crate::text::{decimal, push_decimal, push_str};
use crate::types::{AppRef, backend_name};

verus! {

/// `std::io::Error`, carried through unchanged.
#[verifier::external_type_specification]
#[verifier::external_body]
pub struct ExIoError(std::io::Error);

#[derive(Debug)]
pub enum Error {
    /// The backend is not usable on this system (daemon missing, not
    /// installed). The interface hides the backend rather than show an error.
    BackendUnavailable { backend: &'static str, reason: String },
    NotFound(AppRef),
    /// Needs elevated privileges and the user declined or the prompt failed.
    NotAuthorized,
    Network(String),
    /// Not enough disk space. Both figures in bytes, for a useful message.
    OutOfSpace { needed: u64, available: u64 },
    /// The transaction was cancelled by the user. Not worth showing an error.
    Cancelled,
    /// The backend refused the operation for its own reasons; the text is
    /// already user-facing and comes straight from the package system.
    Backend(String),
    Io(std::io::Error),
}

/// The text an error is shown by. An I/O error's text is the operating
/// system's, and is not given here.
pub open spec fn error_text(e: Error) -> Seq<char> {
    match e {
        Error::BackendUnavailable { backend, reason } => backend@ + " is unavailable: "@ + reason@,
        Error::NotFound(r) => backend_name(r.backend) + ":"@ + r.id@,
        Error::NotAuthorized => "authorization was declined"@,
        Error::Network(m) => "network error: "@ + m@,
        Error::OutOfSpace { needed, available } => "need "@ + decimal(needed as nat) + " bytes but only "@
            + decimal(available as nat) + " are free"@,
        Error::Cancelled => "cancelled"@,
        Error::Backend(m) => m@,
        Error::Io(_) => Seq::empty(),
    }
}

/// `ToString::to_string` of a `std::io::Error`, that is its `Display`
/// text. For an error from the operating system the text comes from the
/// system's message table, so nothing is promised of it.
#[verifier::external_body]
fn io_error_text(e: &std::io::Error) -> String {
    e.to_string()
}

impl Error {
    /// The message the error is shown to the user by. An I/O error shows
    /// its own text.
    pub fn message(&self) -> (m: String)
        ensures
            !(self is Io) ==> m@ == error_text(*self),
    {
        match self {
            Error::BackendUnavailable { backend, reason } => {
                let mut m = String::new();
                push_str(&mut m, backend);
                push_str(&mut m, " is unavailable: ");
                push_str(&mut m, reason.as_str());
                m
            },
            Error::NotFound(r) => {
                let mut m = String::new();
                push_str(&mut m, r.backend.as_str());
                push_str(&mut m, ":");
                push_str(&mut m, r.id.as_str());
                m
            },
            Error::NotAuthorized => "authorization was declined".to_owned(),
            Error::Network(d) => {
                let mut m = "network error: ".to_owned();
                push_str(&mut m, d.as_str());
                m
            },
            Error::OutOfSpace { needed, available } => {
                let mut m = "need ".to_owned();
                push_decimal(&mut m, *needed);
                push_str(&mut m, " bytes but only ");
                push_decimal(&mut m, *available);
                push_str(&mut m, " are free");
                m
            },
            Error::Cancelled => "cancelled".to_owned(),
            Error::Backend(d) => d.clone(),
            Error::Io(e) => io_error_text(e),
        }
    }

    /// Whether offering a retry button makes sense.
    pub fn is_retryable(&self) -> (r: bool)
        ensures
            r == (self is Network || self is Io),
    {
        match self {
            Error::Network(_) | Error::Io(_) => true,
            _ => false,
        }
    }

    /// Cancellation is a normal outcome; it is not surfaced as a failure.
    pub fn is_cancelled(&self) -> (r: bool)
        ensures
            r == (self is Cancelled),
    {
        match self {
            Error::Cancelled => true,
            _ => false,
        }
    }
}

/// A backend failure described as `context: detail`.
pub fn backend_error(context: &str, detail: &str) -> (e: Error)
    ensures
        e matches Error::Backend(m) && m@ == context@ + ": "@ + detail@,
{
    let mut m = String::new();
    push_str(&mut m, context);
    push_str(&mut m, ": ");
    push_str(&mut m, detail);
    Error::Backend(m)
}

} // verus!
