use mqtt_workbench::driver::{driver_step, DriverEvent, DriverState, SinkEvent};

fn start_state() -> DriverState {
    DriverState::start()
}

#[test]
fn shutdown_exits_and_reports_disconnected() {
    let mut state = start_state();
    let outcome = driver_step(7, &mut state, DriverEvent::Shutdown);
    assert!(outcome.exit);
    match outcome.emit {
        Some(SinkEvent::State(cs)) => {
            assert_eq!(cs.server_id, 7);
            assert_eq!(cs.status, "disconnected");
            assert!(cs.error.is_none());
        }
        other => panic!("expected a state event, got {:?}", other),
    }
}

#[test]
fn connack_success_marks_connected() {
    let mut state = start_state();
    let outcome = driver_step(1, &mut state, DriverEvent::ConnAckSuccess);
    assert!(!outcome.exit);
    assert!(state.connected);
    match outcome.emit {
        Some(SinkEvent::State(cs)) => {
            assert_eq!(cs.server_id, 1);
            assert_eq!(cs.status, "connected");
            assert!(cs.error.is_none());
        }
        other => panic!("expected a state event, got {:?}", other),
    }
}

#[test]
fn connack_failure_is_fatal_with_refusal_message() {
    let mut state = start_state();
    let outcome = driver_step(2, &mut state, DriverEvent::ConnAckFailure("BadUserNamePassword".to_string()));
    assert!(outcome.exit);
    match outcome.emit {
        Some(SinkEvent::State(cs)) => {
            assert_eq!(cs.server_id, 2);
            assert_eq!(cs.status, "error");
            assert_eq!(cs.error.as_deref(), Some("Connection refused: BadUserNamePassword"));
        }
        other => panic!("expected a state event, got {:?}", other),
    }
}

#[test]
fn incoming_publish_is_delivered_unchanged() {
    let mut state = start_state();
    driver_step(3, &mut state, DriverEvent::ConnAckSuccess);
    let outcome = driver_step(
        3,
        &mut state,
        DriverEvent::IncomingPublish {
            topic: "a/b".to_string(),
            payload: vec![0x01, 0x02],
            qos: 1,
            retain: true,
            timestamp: "2024-01-01T00:00:00Z".to_string(),
        },
    );
    assert!(!outcome.exit);
    assert!(state.connected);
    match outcome.emit {
        Some(SinkEvent::Message(m)) => {
            assert_eq!(m.server_id, 3);
            assert_eq!(m.topic, "a/b");
            assert_eq!(m.payload, vec![0x01, 0x02]);
            assert_eq!(m.qos, 1);
            assert!(m.retain);
            assert_eq!(m.timestamp, "2024-01-01T00:00:00Z");
        }
        other => panic!("expected a message event, got {:?}", other),
    }
}

#[test]
fn quiet_events_change_nothing() {
    let mut state = start_state();
    for event in [DriverEvent::SubAck, DriverEvent::PingResp, DriverEvent::OtherEvent] {
        let outcome = driver_step(4, &mut state, event);
        assert!(!outcome.exit);
        assert!(outcome.emit.is_none());
        assert!(!state.connected);
    }
}

#[test]
fn transport_error_before_session_reports_connect_failure() {
    let mut state = start_state();
    let outcome = driver_step(5, &mut state, DriverEvent::TransportError("timed out".to_string()));
    assert!(outcome.exit);
    match outcome.emit {
        Some(SinkEvent::State(cs)) => {
            assert_eq!(cs.status, "error");
            assert_eq!(cs.error.as_deref(), Some("Failed to connect: timed out"));
        }
        other => panic!("expected a state event, got {:?}", other),
    }
}

#[test]
fn transport_error_after_session_reports_connection_error() {
    let mut state = start_state();
    driver_step(6, &mut state, DriverEvent::ConnAckSuccess);
    let outcome = driver_step(6, &mut state, DriverEvent::TransportError("reset".to_string()));
    assert!(outcome.exit);
    match outcome.emit {
        Some(SinkEvent::State(cs)) => {
            assert_eq!(cs.status, "error");
            assert_eq!(cs.error.as_deref(), Some("Connection error: reset"));
        }
        other => panic!("expected a state event, got {:?}", other),
    }
}
