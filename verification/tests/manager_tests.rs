use mqtt_workbench::driver::{driver_step, DriverEvent, DriverState, SinkEvent};
use mqtt_workbench::errors::{CommandError, ConnectError};
use mqtt_workbench::manager::MqttManager;
use mqtt_workbench::models::MqttServer;

fn plain_server(id: Option<i64>) -> MqttServer {
    MqttServer {
        id,
        name: "test broker".to_string(),
        host: "test".to_string(),
        port: 1883,
        protocol_version: "3.1.1".to_string(),
        username: None,
        password: None,
        client_id: None,
        keep_alive: 60,
        clean_session: true,
        use_tls: false,
        ca_cert: None,
        client_cert: None,
        client_key: None,
        client_key_password: None,
        created_at: None,
        updated_at: None,
    }
}

#[test]
fn connect_without_id_is_refused() {
    let mut manager = MqttManager::new();
    let mut events = Vec::new();
    let result = manager.connect(plain_server(None), &mut events);
    assert!(matches!(result, Err(ConnectError::MissingId)));
    assert!(events.is_empty());
    assert!(!manager.is_connected(1));
}

#[test]
fn connect_pins_the_engine_options() {
    let mut manager = MqttManager::new();
    let mut events = Vec::new();
    let start = manager.connect(plain_server(Some(1)), &mut events).unwrap();
    assert_eq!(start.options.host, "test");
    assert_eq!(start.options.port, 1883);
    assert_eq!(start.options.keep_alive_secs, 60);
    assert!(start.options.clean_session);
    assert!(!start.options.use_tls);
    assert!(start.options.client_id.starts_with("mqtt_client_"));
    assert!(start.options.credentials.is_none());

    // A non-empty username and a password become the credentials; an empty
    // username configures none.
    let mut with_credentials = plain_server(Some(2));
    with_credentials.username = Some("user".to_string());
    with_credentials.password = Some("pass".to_string());
    let start = manager.connect(with_credentials, &mut events).unwrap();
    assert_eq!(
        start.options.credentials,
        Some(("user".to_string(), "pass".to_string()))
    );

    let mut blank_user = plain_server(Some(3));
    blank_user.username = Some(String::new());
    blank_user.password = Some("pass".to_string());
    let start = manager.connect(blank_user, &mut events).unwrap();
    assert!(start.options.credentials.is_none());

    // A supplied client id is passed through unchanged.
    let mut named = plain_server(Some(4));
    named.client_id = Some("workbench".to_string());
    let start = manager.connect(named, &mut events).unwrap();
    assert_eq!(start.options.client_id, "workbench");
}

#[test]
fn connect_registers_handle_and_emits_connecting() {
    let mut manager = MqttManager::new();
    let mut events = Vec::new();
    assert!(!manager.is_connected(1));
    let result = manager.connect(plain_server(Some(1)), &mut events);
    assert!(result.is_ok());
    let start = result.unwrap();
    assert_eq!(start.server_id, 1);
    assert!(manager.is_connected(1));
    assert_eq!(events.len(), 1);
    match &events[0] {
        SinkEvent::State(cs) => {
            assert_eq!(cs.server_id, 1);
            assert_eq!(cs.status, "connecting");
            assert!(cs.error.is_none());
        }
        other => panic!("expected a state event, got {:?}", other),
    }
}

#[test]
fn connect_with_tls_flag_and_no_material_succeeds() {
    // No PEM material supplied: the builder owes success, so connect does too.
    let mut manager = MqttManager::new();
    let mut events = Vec::new();
    let mut server = plain_server(Some(5));
    server.use_tls = true;
    let start = manager.connect(server, &mut events).unwrap();
    assert!(start.options.use_tls);
    assert!(manager.is_connected(5));
}

#[test]
fn connect_then_disconnect_settles() {
    // The full shutdown path of one broker: connect, disconnect, the
    // driver's step on the signal, the driver's exit.
    let mut manager = MqttManager::new();
    let mut events = Vec::new();
    let _start = manager.connect(plain_server(Some(9)), &mut events).unwrap();
    assert!(manager.is_connected(9));

    let signalled = manager.disconnect(9);
    assert!(signalled);

    let mut state = DriverState::start();
    let outcome = driver_step(9, &mut state, DriverEvent::Shutdown);
    assert!(outcome.exit);

    manager.driver_exited(9, _start.generation);
    assert!(!manager.is_connected(9));
}

#[test]
fn disconnect_without_handle_is_a_quiet_no_op() {
    let manager = MqttManager::new();
    assert!(!manager.disconnect(42));
}

#[test]
fn second_connect_supersedes_first() {
    let mut manager = MqttManager::new();
    let mut events = Vec::new();
    let first = manager.connect(plain_server(Some(1)), &mut events).unwrap();
    let second = manager.connect(plain_server(Some(1)), &mut events).unwrap();
    assert!(manager.is_connected(1));
    assert_eq!(events.len(), 2);
    assert_ne!(first.generation, second.generation);

    // The superseded driver's exit must not retire the fresh handle.
    manager.driver_exited(1, first.generation);
    assert!(manager.is_connected(1));

    // The owning driver's exit does.
    manager.driver_exited(1, second.generation);
    assert!(!manager.is_connected(1));
}

#[test]
fn commands_without_handle_fail_with_not_connected() {
    let manager = MqttManager::new();
    assert!(matches!(
        manager.publish(1, "a/b".to_string(), vec![1], 0, false),
        Err(CommandError::NotConnected)
    ));
    assert!(matches!(
        manager.subscribe(1, "a/b".to_string(), 0),
        Err(CommandError::NotConnected)
    ));
    assert!(matches!(
        manager.unsubscribe(1, "a/b".to_string()),
        Err(CommandError::NotConnected)
    ));
}

#[test]
fn out_of_range_qos_is_refused_before_any_submission() {
    let mut manager = MqttManager::new();
    let mut events = Vec::new();
    let _start = manager.connect(plain_server(Some(1)), &mut events).unwrap();
    for qos in [3u8, 4, 100, 255] {
        assert!(matches!(
            manager.publish(1, "a/b".to_string(), vec![1], qos, false),
            Err(CommandError::InvalidQos)
        ));
        assert!(matches!(
            manager.subscribe(1, "a/b".to_string(), qos),
            Err(CommandError::InvalidQos)
        ));
    }
    // The handle is still live and usable afterwards.
    assert!(manager.publish(1, "a/b".to_string(), vec![1], 0, false).is_ok());
}

#[test]
fn publish_while_connected_succeeds_and_while_never_connected_fails() {
    let mut manager = MqttManager::new();
    let mut events = Vec::new();
    let _start = manager.connect(plain_server(Some(1)), &mut events).unwrap();
    assert!(manager
        .publish(1, "a/b".to_string(), vec![0x01, 0x02], 1, false)
        .is_ok());

    let fresh = MqttManager::new();
    assert!(matches!(
        fresh.publish(1, "a/b".to_string(), vec![0x01, 0x02], 1, false),
        Err(CommandError::NotConnected)
    ));
}

#[test]
fn connected_window_runs_from_registration_to_exit() {
    let mut manager = MqttManager::new();
    let mut events = Vec::new();
    assert!(!manager.is_connected(1));
    let start = manager.connect(plain_server(Some(1)), &mut events).unwrap();
    assert!(manager.is_connected(1));

    // The driver acknowledges: a `connected` event follows `connecting`.
    let mut state = DriverState::start();
    let outcome = driver_step(1, &mut state, DriverEvent::ConnAckSuccess);
    match outcome.emit {
        Some(SinkEvent::State(cs)) => assert_eq!(cs.status, "connected"),
        other => panic!("expected a state event, got {:?}", other),
    }

    manager.driver_exited(1, start.generation);
    assert!(!manager.is_connected(1));
}

#[test]
fn subscribe_and_unsubscribe_while_connected_succeed() {
    let mut manager = MqttManager::new();
    let mut events = Vec::new();
    let _start = manager.connect(plain_server(Some(1)), &mut events).unwrap();
    assert!(manager.subscribe(1, "a/#".to_string(), 2).is_ok());
    assert!(manager.unsubscribe(1, "a/#".to_string()).is_ok());
}
