use app_daemon::action::{operation_result, ApplicationAction};
use app_daemon::events::{
    cancelled, event_id, is_terminal, response_id, revision_changes, selected_streams, Detail,
    Forward, Notice, RequestKind, StateRevision, Subscription, SubscriptionNames,
};
use app_daemon::protocol::{
    self, daemon_unavailable, invalid_params, methods, operation_failed, route, streams,
    unsupported_stream, validation_error, Method,
};
use app_daemon::service::{respond, Refresh, Signal};

#[test]
fn filters_shared_state_changes_by_selected_streams() {
    let previous = StateRevision {
        catalog: 1,
        windows: 2,
    };
    let current = StateRevision {
        catalog: 3,
        windows: 4,
    };
    assert_eq!(
        revision_changes((true, false, false), previous, current),
        [(protocol::stream::APPLICATIONS, 3)]
    );
    assert_eq!(
        revision_changes((false, true, false), previous, current),
        [(protocol::stream::WINDOWS, 4)]
    );
    assert!(revision_changes((true, true, true), current, current).is_empty());
}

#[test]
fn correlates_application_operations_and_subscriptions() {
    let operation = response_id(Some("operation-1".into()), None).expect("operation");
    assert_eq!(operation.id, "operation-1");
    assert_eq!(operation.kind, RequestKind::Operation);
    assert_eq!(
        event_id(
            protocol::stream::OPERATION,
            Some("operation-1".into()),
            None
        ),
        Some("operation-1".into())
    );
    assert!(is_terminal(protocol::stream::OPERATION, Some("completed")));

    let subscription = response_id(None, Some("sub-1".into())).expect("subscription");
    assert_eq!(subscription.kind, RequestKind::Subscription);
    assert_eq!(
        event_id(protocol::stream::WINDOWS, Some("x".into()), Some("sub-1".into())),
        Some("sub-1".into())
    );
    assert!(!is_terminal(protocol::stream::OPERATION, Some("running")));
    assert!(!is_terminal(protocol::stream::WINDOWS, Some("completed")));
    assert!(!is_terminal(protocol::stream::OPERATION, None));
}

#[test]
fn lists_methods_and_streams() {
    assert_eq!(protocol::NAME, "app-api");
    assert_eq!(protocol::VERSION, 1);
    assert_eq!(
        methods(),
        [
            "applications.query",
            "applications.revision",
            "applications.history",
            "applications.energyOverview",
            "applications.refresh",
            "applications.execute",
            "applications.settings.update",
        ]
    );
    assert_eq!(
        streams(),
        [
            "applications.changed",
            "windows.changed",
            "applications.operation"
        ]
    );
}

#[test]
fn routes_methods_and_names_errors() {
    assert_eq!(route("applications.query").expect("method"), Method::Query);
    assert_eq!(
        route("applications.settings.update").expect("method"),
        Method::UpdateSettings
    );
    let error = route("applications.nothing").expect_err("unsupported");
    assert_eq!(error.code, "unsupported-method");
    assert_eq!(
        error.message,
        "Unsupported app-api method: applications.nothing"
    );
    assert_eq!(validation_error("x".into()).code, "validation-error");
    assert_eq!(invalid_params("eof").message, "invalid params JSON: eof");
    assert_eq!(operation_failed("x".into()).code, "operation-failed");
    assert_eq!(daemon_unavailable().code, "daemon-unavailable");
    assert_eq!(
        unsupported_stream("x").message,
        "Unsupported app-api stream: x"
    );
}

#[test]
fn selects_known_streams_only() {
    let names = |list: &[&str]| -> Vec<String> { list.iter().map(|n| n.to_string()).collect() };
    assert_eq!(
        selected_streams(&names(&["windows.changed", "applications.operation"])),
        Ok((false, true, true))
    );
    assert_eq!(
        selected_streams(&names(&["windows.changed", "x", "y"])),
        Err("x".to_owned())
    );
    assert_eq!(selected_streams(&[]), Ok((false, false, false)));
}

#[test]
fn tells_subscribers_what_they_asked_for() {
    let start = StateRevision {
        catalog: 1,
        windows: 1,
    };
    let (mut subscription, greetings) = Subscription::begin((true, false, true), start);
    let streams: Vec<&str> = greetings.iter().map(|e| e.stream).collect();
    assert_eq!(streams, ["applications.changed", "applications.operation"]);
    assert_eq!(greetings[0].event, "subscribed");
    let later = StateRevision {
        catalog: 2,
        windows: 5,
    };
    match subscription.receive(Notice::StateMissed(later)) {
        Forward::Emit(list) => {
            assert_eq!(list.len(), 1);
            assert_eq!(list[0].event, "changed");
            assert!(matches!(list[0].detail, Detail::Changed(2)));
        }
        other => panic!("unexpected {other:?}"),
    }
    match subscription.receive(Notice::State(later)) {
        Forward::Emit(list) => assert!(list.is_empty()),
        other => panic!("unexpected {other:?}"),
    }
    let record = operation_result("1", ApplicationAction::Close, "t", "completed", "m", None);
    match subscription.receive(Notice::Operation(record)) {
        Forward::Emit(list) => {
            assert_eq!(list[0].stream, "applications.operation");
            assert_eq!(list[0].event, "completed");
        }
        other => panic!("unexpected {other:?}"),
    }
    assert!(matches!(
        subscription.receive(Notice::OperationsMissed(3)),
        Forward::Warn(3)
    ));
    assert!(matches!(
        subscription.receive(Notice::Closed),
        Forward::Stop
    ));
}

#[test]
fn names_and_cancels_requests() {
    let mut names = SubscriptionNames::new();
    assert_eq!(names.take(), "subscription-1");
    assert_eq!(names.take(), "subscription-2");
    assert_eq!(
        cancelled("x", true, false).expect("kind").as_str(),
        "subscription"
    );
    assert_eq!(
        cancelled("x", false, true).expect("kind").as_str(),
        "operation"
    );
    let error = cancelled("x", false, false).expect_err("unknown");
    assert_eq!(error.code, "request-not-found");
    assert_eq!(error.message, "No active request named x");
}

#[test]
fn looks_again_when_something_changed() {
    assert_eq!(respond(Signal::Windows(true)), Refresh::Windows(75));
    assert_eq!(respond(Signal::Directories(true)), Refresh::Catalog(75));
    assert_eq!(respond(Signal::Windows(false)), Refresh::Stop);
    assert_eq!(respond(Signal::CatalogTimer), Refresh::Catalog(0));
}
