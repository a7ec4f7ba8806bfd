use skadi::bus::EventBus;
use skadi::error::SkadiError;
use skadi::runner::{oneshot_response, poll_started_response};
use skadi::server::{healthcheck_response, ready_outcome, signal_ready};

#[test]
fn the_health_probe_answers_ok() {
    let bus = EventBus::new();
    let r = healthcheck_response(&bus);
    assert_eq!(r.status, 200);
    assert_eq!(r.body, "OK");
}

#[test]
fn the_health_probe_is_unmoved_by_execution_requests() {
    // health before and after a number of execution requests
    let mut bus = EventBus::new();
    assert_eq!(healthcheck_response(&bus).status, 200);
    for _ in 0..3 {
        let _ = poll_started_response();
        let _ = oneshot_response(b"out\n");
    }
    let (tx, _rx) = tokio::sync::mpsc::unbounded_channel();
    bus.register("main".to_string(), tx);
    bus.deliver(&"main".to_string(), "ev".to_string(), "{}".to_string());
    assert_eq!(healthcheck_response(&bus).status, 200);
    assert_eq!(healthcheck_response(&bus).body, "OK");
}

#[test]
fn a_received_readiness_signal_is_ok() {
    let (tx, mut rx) = tokio::sync::oneshot::channel::<()>();
    assert!(signal_ready(tx).is_ok());
    assert!(rx.try_recv().is_ok());
}

#[test]
fn a_readiness_signal_nobody_awaits_is_fatal() {
    let (tx, rx) = tokio::sync::oneshot::channel::<()>();
    drop(rx);
    match signal_ready(tx) {
        Err(SkadiError::ServerError(m)) => {
            assert_eq!(m, "Failed to send ready signal");
        }
        other => panic!("expected a server error, got {:?}", other),
    }
}

#[test]
fn ready_outcome_follows_the_send() {
    assert!(ready_outcome(true).is_ok());
    assert!(matches!(ready_outcome(false), Err(SkadiError::ServerError(_))));
}

#[test]
fn error_kinds_describe_themselves() {
    assert_eq!(
        SkadiError::PathNotFound.kind_message(),
        "Failed to find configuration directory"
    );
    assert_eq!(
        SkadiError::ServerError("x".to_string()).kind_message(),
        "Failed to setup server"
    );
    assert_eq!(
        SkadiError::ConfigNotSpecified(vec![]).kind_message(),
        "Configuration file not specified"
    );
    assert_eq!(
        SkadiError::ConfigParsing("p".to_string(), "why".to_string()).kind_message(),
        "Failed to parse configuration"
    );
    assert_eq!(
        SkadiError::WindowCreation("w".to_string()).kind_message(),
        "Failed to create application window"
    );
    assert_eq!(SkadiError::Io("e".to_string()).kind_message(), "I/O error");
}

#[test]
fn error_details_carry_the_message() {
    assert_eq!(
        SkadiError::ServerError("bind failed".to_string()).detail(),
        Some(&"bind failed".to_string())
    );
    assert_eq!(SkadiError::PathNotFound.detail(), None);
    assert_eq!(
        SkadiError::ConfigParsing("p".to_string(), "bad".to_string()).detail(),
        Some(&"bad".to_string())
    );
}
