use appsscope::activity::{busy_notice, done_notice, next_activity, ActivityAction, ActivityEvent};

#[test]
fn requests_while_busy_are_refused() {
    for ready in [true, false] {
        assert_eq!(
            next_activity(true, ActivityEvent::InstallRequested { ready }),
            (true, ActivityAction::RefuseBusy)
        );
        assert_eq!(
            next_activity(true, ActivityEvent::StartRequested { ready, has_operation: true }),
            (true, ActivityAction::RefuseBusy)
        );
    }
    assert_eq!(busy_notice(), "Another operation is already running");
}

#[test]
fn an_idle_shell_starts_what_is_asked() {
    assert_eq!(
        next_activity(false, ActivityEvent::InstallRequested { ready: true }),
        (false, ActivityAction::AskConsent)
    );
    assert_eq!(
        next_activity(false, ActivityEvent::StartRequested { ready: true, has_operation: true }),
        (true, ActivityAction::Begin)
    );
    assert_eq!(
        next_activity(false, ActivityEvent::StartRequested { ready: false, has_operation: true }),
        (false, ActivityAction::Ignore)
    );
    assert_eq!(
        next_activity(false, ActivityEvent::InstallRequested { ready: false }),
        (false, ActivityAction::Ignore)
    );
}

#[test]
fn an_operation_ends_once() {
    assert_eq!(next_activity(true, ActivityEvent::Progressed), (true, ActivityAction::ShowProgress));
    let (busy, action) = next_activity(true, ActivityEvent::Failed);
    assert_eq!((busy, action), (false, ActivityAction::ReportFailure));
    assert_eq!(next_activity(busy, ActivityEvent::Finished), (false, ActivityAction::Ignore));
    let (busy, action) = next_activity(true, ActivityEvent::Finished);
    assert_eq!((busy, action), (false, ActivityAction::ReportDone));
    assert_eq!(next_activity(busy, ActivityEvent::Finished), (false, ActivityAction::Ignore));
    assert_eq!(done_notice(), "Done");
}

#[test]
fn a_request_without_an_operation_leaves_the_shell_idle() {
    assert_eq!(
        next_activity(false, ActivityEvent::StartRequested { ready: true, has_operation: false }),
        (false, ActivityAction::Ignore)
    );
    assert_eq!(
        next_activity(true, ActivityEvent::StartRequested { ready: true, has_operation: false }),
        (true, ActivityAction::RefuseBusy)
    );
}
