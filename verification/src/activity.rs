//! One operation at a time.
//!
//! The shell runs at most one install, removal or update at once. Requests
//! that arrive while one runs are refused with a notice; the operation ends
//! on its first error or when its progress stream runs out, and only an
//! operation that is still running when the stream ends is reported done.

use vstd::prelude::*;

verus! {

/// Something that happens to the operation the shell runs.
#[derive(Debug, Clone, Copy, PartialEq, Eq, Structural)]
pub enum ActivityEvent {
    /// The user asked to install an app; `ready` says whether the backends
    /// have been set up.
    InstallRequested { ready: bool },
    /// An operation was confirmed and should run; `has_operation` says
    /// whether the request names an install, removal or update at all.
    StartRequested { ready: bool, has_operation: bool },
    /// The running operation reported progress.
    Progressed,
    /// The running operation reported an error.
    Failed,
    /// The running operation's progress stream ended.
    Finished,
}

/// What the shell does about an event.
#[derive(Debug, Clone, Copy, PartialEq, Eq, Structural)]
pub enum ActivityAction {
    /// Tell the user another operation is running; change nothing else.
    RefuseBusy,
    /// Look up what the app will be able to do and fetch, then ask for
    /// consent.
    AskConsent,
    /// Run the operation.
    Begin,
    /// Show the progress reported.
    ShowProgress,
    /// Stop, and show the error.
    ReportFailure,
    /// Stop, say it is done, and reload the installed list.
    ReportDone,
    /// Nothing to do.
    Ignore,
}

/// Whether an operation runs after `event`, and what the shell does,
/// given whether one was running before.
pub open spec fn activity(busy: bool, event: ActivityEvent) -> (bool, ActivityAction) {
    match event {
        ActivityEvent::InstallRequested { ready } => if busy {
            (true, ActivityAction::RefuseBusy)
        } else if ready {
            (false, ActivityAction::AskConsent)
        } else {
            (false, ActivityAction::Ignore)
        },
        ActivityEvent::StartRequested { ready, has_operation } => if busy {
            (true, ActivityAction::RefuseBusy)
        } else if ready && has_operation {
            (true, ActivityAction::Begin)
        } else {
            (false, ActivityAction::Ignore)
        },
        ActivityEvent::Progressed => (busy, ActivityAction::ShowProgress),
        ActivityEvent::Failed => (false, ActivityAction::ReportFailure),
        ActivityEvent::Finished => if busy {
            (false, ActivityAction::ReportDone)
        } else {
            (false, ActivityAction::Ignore)
        },
    }
}

/// The next state and the action for `event`.
pub fn next_activity(busy: bool, event: ActivityEvent) -> (r: (bool, ActivityAction))
    ensures
        r == activity(busy, event),
{
    match event {
        ActivityEvent::InstallRequested { ready } => if busy {
            (true, ActivityAction::RefuseBusy)
        } else if ready {
            (false, ActivityAction::AskConsent)
        } else {
            (false, ActivityAction::Ignore)
        },
        ActivityEvent::StartRequested { ready, has_operation } => if busy {
            (true, ActivityAction::RefuseBusy)
        } else if ready && has_operation {
            (true, ActivityAction::Begin)
        } else {
            (false, ActivityAction::Ignore)
        },
        ActivityEvent::Progressed => (busy, ActivityAction::ShowProgress),
        ActivityEvent::Failed => (false, ActivityAction::ReportFailure),
        ActivityEvent::Finished => if busy {
            (false, ActivityAction::ReportDone)
        } else {
            (false, ActivityAction::Ignore)
        },
    }
}

/// The notice shown when a request is refused.
pub fn busy_notice() -> (s: String)
    ensures
        s@ == "Another operation is already running"@,
{
    "Another operation is already running".to_owned()
}

/// The notice shown when an operation completes.
pub fn done_notice() -> (s: String)
    ensures
        s@ == "Done"@,
{
    "Done".to_owned()
}

/// While an operation runs, no other starts: every request is refused and
/// the running one carries on.
pub proof fn law_one_operation_at_a_time(ready: bool, has_operation: bool)
    ensures
        activity(true, ActivityEvent::InstallRequested { ready }) == (true, ActivityAction::RefuseBusy),
        activity(true, ActivityEvent::StartRequested { ready, has_operation }) == (
            true,
            ActivityAction::RefuseBusy,
        ),
{
}

/// The shell is busy only while an operation is in flight: a request that
/// names no operation, or comes before the backends are set up, leaves it
/// idle and does nothing; only one that runs an operation makes it busy.
pub proof fn law_busy_only_while_running(ready: bool, has_operation: bool)
    ensures
        activity(false, ActivityEvent::StartRequested { ready, has_operation }).0 == (ready && has_operation),
        !(ready && has_operation) ==> activity(false, ActivityEvent::StartRequested { ready, has_operation })
            == (false, ActivityAction::Ignore),
        activity(false, ActivityEvent::InstallRequested { ready }).0 == false,
{
}

/// An operation is reported once: one that failed is not also reported
/// done when its stream ends, and a stream that ends twice is reported done
/// once.
pub proof fn law_reported_once(busy: bool)
    ensures
        activity(activity(busy, ActivityEvent::Failed).0, ActivityEvent::Finished).1 == ActivityAction::Ignore,
        activity(activity(busy, ActivityEvent::Finished).0, ActivityEvent::Finished).1 == ActivityAction::Ignore,
{
}

} // verus!
