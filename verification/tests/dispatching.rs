use udp_mqtt_bridge::decoder::DropReason;
use udp_mqtt_bridge::dispatcher::{
    advance, begin_dispatch, build_request, UnitAction, UnitEvent, UnitState, PUBLISH_QOS,
};

/// Runs a unit over the events and gives back what it asked for.
fn run_unit(datagram: &[u8], events: &[UnitEvent]) -> (UnitState, Vec<UnitAction>) {
    let (mut state, first) = begin_dispatch(datagram);
    let mut actions = vec![first];
    for event in events {
        let (next, action) = advance(state, *event);
        state = next;
        actions.push(action);
    }
    (state, actions)
}

fn publishes(actions: &[UnitAction]) -> usize {
    actions.iter().filter(|a| matches!(a, UnitAction::Publish(_))).count()
}

fn errors(actions: &[UnitAction]) -> usize {
    actions.iter().filter(|a| matches!(a, UnitAction::ReportError(_))).count()
}

const EVERY_EVENT: [UnitEvent; 4] = [
    UnitEvent::AccessGranted,
    UnitEvent::AccessDenied,
    UnitEvent::PublishSucceeded,
    UnitEvent::PublishFailed,
];

#[test]
fn valid_datagram_is_published_once() {
    let (state, actions) = run_unit(
        b"sensors/temp:21.5",
        &[UnitEvent::AccessGranted, UnitEvent::PublishSucceeded],
    );
    assert!(matches!(state, UnitState::Done));
    assert_eq!(actions.len(), 3);
    assert!(matches!(actions[0], UnitAction::Acquire));
    match &actions[1] {
        UnitAction::Publish(request) => {
            assert_eq!(request.topic, "sensors/temp");
            assert_eq!(request.payload, "21.5");
            assert_eq!(request.qos, 0);
            assert!(!request.retained);
        }
        other => panic!("expected a publish, got {:?}", other),
    }
    assert!(matches!(actions[2], UnitAction::ReportSent));
    assert_eq!(publishes(&actions), 1);
    assert_eq!(errors(&actions), 0);
}

#[test]
fn payload_keeps_further_delimiters() {
    let (_, actions) = run_unit(b"a:b:c", &[UnitEvent::AccessGranted]);
    match &actions[1] {
        UnitAction::Publish(request) => {
            assert_eq!(request.topic, "a");
            assert_eq!(request.payload, "b:c");
        }
        other => panic!("expected a publish, got {:?}", other),
    }
}

#[test]
fn invalid_text_is_never_published() {
    let (state, actions) = run_unit(&[0xff, b':', b'x'], &EVERY_EVENT);
    assert!(matches!(state, UnitState::Done));
    assert!(matches!(actions[0], UnitAction::ReportError(DropReason::InvalidText)));
    assert_eq!(publishes(&actions), 0);
    assert_eq!(errors(&actions), 1);
    for action in &actions[1..] {
        assert!(matches!(action, UnitAction::Nothing));
    }
}

#[test]
fn invalid_text_is_reported_without_events() {
    let (state, actions) = run_unit(&[0xc3], &[]);
    assert!(matches!(state, UnitState::Done));
    assert_eq!(publishes(&actions), 0);
    assert_eq!(errors(&actions), 1);
}

#[test]
fn text_without_delimiter_is_dropped_with_one_error() {
    let (state, actions) = run_unit(b"no payload", &[UnitEvent::AccessGranted]);
    assert!(matches!(state, UnitState::Done));
    assert!(matches!(actions[0], UnitAction::Acquire));
    assert!(matches!(actions[1], UnitAction::ReportError(DropReason::Incomplete)));
    assert_eq!(publishes(&actions), 0);
    assert_eq!(errors(&actions), 1);
}

#[test]
fn text_without_delimiter_never_publishes_whatever_follows() {
    let (_, actions) = run_unit(
        b"no payload",
        &[
            UnitEvent::PublishSucceeded,
            UnitEvent::AccessGranted,
            UnitEvent::AccessGranted,
            UnitEvent::PublishFailed,
        ],
    );
    assert_eq!(publishes(&actions), 0);
    assert_eq!(errors(&actions), 1);
}

#[test]
fn denied_access_loses_the_message() {
    let (state, actions) = run_unit(b"t:p", &[UnitEvent::AccessDenied, UnitEvent::AccessGranted]);
    assert!(matches!(state, UnitState::Done));
    assert!(matches!(actions[1], UnitAction::ReportError(DropReason::ConnectionUnavailable)));
    assert!(matches!(actions[2], UnitAction::Nothing));
    assert_eq!(publishes(&actions), 0);
    assert_eq!(errors(&actions), 1);
}

#[test]
fn denied_access_comes_before_the_missing_payload() {
    let (_, actions) = run_unit(b"no payload", &[UnitEvent::AccessDenied]);
    assert!(matches!(actions[1], UnitAction::ReportError(DropReason::ConnectionUnavailable)));
}

#[test]
fn failed_publish_is_reported_and_not_retried() {
    let (state, actions) = run_unit(
        b"t:p",
        &[UnitEvent::AccessGranted, UnitEvent::PublishFailed, UnitEvent::AccessGranted],
    );
    assert!(matches!(state, UnitState::Done));
    assert!(matches!(actions[2], UnitAction::ReportError(DropReason::PublishFailed)));
    assert!(matches!(actions[3], UnitAction::Nothing));
    assert_eq!(publishes(&actions), 1);
    assert_eq!(errors(&actions), 1);
}

#[test]
fn events_out_of_turn_change_nothing() {
    let (state, actions) = run_unit(b"t:p", &[UnitEvent::PublishSucceeded]);
    assert!(matches!(state, UnitState::AwaitingAccess { .. }));
    assert!(matches!(actions[1], UnitAction::Nothing));
    let (state, actions) = run_unit(b"t:p", &[UnitEvent::AccessGranted, UnitEvent::AccessGranted]);
    assert!(matches!(state, UnitState::Publishing));
    assert!(matches!(actions[2], UnitAction::Nothing));
    assert_eq!(publishes(&actions), 1);
}

#[test]
fn publish_only_follows_a_grant() {
    for first in EVERY_EVENT {
        for second in EVERY_EVENT {
            for third in EVERY_EVENT {
                let events = [first, second, third];
                let (_, actions) = run_unit(b"t:p", &events);
                assert!(publishes(&actions) <= 1);
                assert!(errors(&actions) <= 1);
                for (at, action) in actions.iter().enumerate() {
                    if matches!(action, UnitAction::Publish(_)) {
                        assert!(at >= 1);
                        assert_eq!(events[at - 1], UnitEvent::AccessGranted);
                    }
                }
            }
        }
    }
}

#[test]
fn repeated_datagrams_are_published_again() {
    let events = [UnitEvent::AccessGranted, UnitEvent::PublishSucceeded];
    let (_, first) = run_unit(b"same:bytes", &events);
    let (_, second) = run_unit(b"same:bytes", &events);
    assert_eq!(publishes(&first), 1);
    assert_eq!(publishes(&second), 1);
    assert_eq!(format!("{:?}", first), format!("{:?}", second));
}

#[test]
fn request_has_the_fixed_quality_of_service() {
    let request = build_request(String::from("topic"), String::from("payload"));
    assert_eq!(request.topic, "topic");
    assert_eq!(request.payload, "payload");
    assert_eq!(request.qos, PUBLISH_QOS);
    assert_eq!(PUBLISH_QOS, 0);
    assert!(!request.retained);
}
