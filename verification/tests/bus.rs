use skadi::bus::{DeliveryOutcome, EventBus};
use skadi::runner::{event_name_of, forward_line, label_or_default, poll_started_response};
use tokio::sync::mpsc;

#[test]
fn delivery_reaches_the_registered_sink() {
    let (tx, mut rx) = mpsc::unbounded_channel();
    let mut bus = EventBus::new();
    bus.register("main".to_string(), tx);
    let outcome = bus.deliver(&"main".to_string(), "ev".to_string(), "{}".to_string());
    assert_eq!(outcome, DeliveryOutcome::Sent);
    let (name, payload) = rx.try_recv().unwrap();
    assert_eq!(name, "ev");
    assert_eq!(payload, "{}");
    assert!(rx.try_recv().is_err(), "exactly one delivery");
}

#[test]
fn latest_registration_wins() {
    // registering the same label twice: only the most recent sink receives
    let (tx1, mut rx1) = mpsc::unbounded_channel();
    let (tx2, mut rx2) = mpsc::unbounded_channel();
    let mut bus = EventBus::new();
    bus.register("main".to_string(), tx1);
    bus.register("main".to_string(), tx2);
    let outcome = bus.deliver(&"main".to_string(), "ev".to_string(), "p".to_string());
    assert_eq!(outcome, DeliveryOutcome::Sent);
    assert!(rx1.try_recv().is_err(), "the replaced sink receives nothing");
    let (name, payload) = rx2.try_recv().unwrap();
    assert_eq!(name, "ev");
    assert_eq!(payload, "p");
}

#[test]
fn unregistered_label_is_a_quiet_no_op() {
    let (tx, mut rx) = mpsc::unbounded_channel();
    let mut bus = EventBus::new();
    bus.register("main".to_string(), tx);
    let outcome = bus.deliver(&"other".to_string(), "ev".to_string(), "p".to_string());
    assert_eq!(outcome, DeliveryOutcome::NoSink);
    assert!(rx.try_recv().is_err(), "no sink receives anything");
}

#[test]
fn delivery_on_an_empty_bus_is_a_no_op() {
    let bus = EventBus::new();
    let outcome = bus.deliver(&"any".to_string(), "ev".to_string(), "p".to_string());
    assert_eq!(outcome, DeliveryOutcome::NoSink);
}

#[test]
fn a_closed_sink_fails_soft() {
    let (tx, rx) = mpsc::unbounded_channel::<(String, String)>();
    drop(rx);
    let mut bus = EventBus::new();
    bus.register("main".to_string(), tx);
    let outcome = bus.deliver(&"main".to_string(), "ev".to_string(), "p".to_string());
    assert_eq!(outcome, DeliveryOutcome::SinkClosed);
}

#[test]
fn registrations_under_other_labels_are_kept_apart() {
    let (tx1, mut rx1) = mpsc::unbounded_channel();
    let (tx2, mut rx2) = mpsc::unbounded_channel();
    let mut bus = EventBus::new();
    bus.register("a".to_string(), tx1);
    bus.register("b".to_string(), tx2);
    bus.deliver(&"b".to_string(), "ev".to_string(), "p".to_string());
    assert!(rx1.try_recv().is_err());
    assert!(rx2.try_recv().is_ok());
}

#[test]
fn polling_echo_streams_one_wrapped_line_to_the_label() {
    // the polling scenario: "echo hello" with the label header "main" set and
    // "main" registered — the acknowledgement is immediate, and the bus gets
    // exactly one event, named after the shell invocation, wrapping the line.
    let (tx, mut rx) = mpsc::unbounded_channel();
    let mut bus = EventBus::new();
    bus.register("main".to_string(), tx);

    let ack = poll_started_response();
    assert_eq!(ack.status, 200);
    assert_eq!(ack.body, "{\"message\":\"Polling command started\"}");

    let command = "echo hello".to_string();
    let name = event_name_of(&command);
    let label = label_or_default(Some("main".to_string()));
    let outcome = forward_line(&bus, &label, name, "hello".to_string());
    assert_eq!(outcome, DeliveryOutcome::Sent);

    let (name, payload) = rx.try_recv().unwrap();
    assert_eq!(name, "echo hello");
    assert_eq!(payload, "{\"output\":\"hello\"}");
    assert!(rx.try_recv().is_err(), "exactly one delivery");
}

#[test]
fn forward_line_without_label_header_discards_quietly() {
    let bus = EventBus::new();
    let label = label_or_default(None);
    assert_eq!(label, "unknown-label");
    let outcome = forward_line(&bus, &label, "ev".to_string(), "hello".to_string());
    assert_eq!(outcome, DeliveryOutcome::NoSink);
}

#[test]
fn forward_line_passes_structured_lines_through() {
    let (tx, mut rx) = mpsc::unbounded_channel();
    let mut bus = EventBus::new();
    bus.register("w".to_string(), tx);
    forward_line(&bus, &"w".to_string(), "ev".to_string(), "{\"a\":1}".to_string());
    let (_, payload) = rx.try_recv().unwrap();
    assert_eq!(payload, "{\"a\":1}");
}
