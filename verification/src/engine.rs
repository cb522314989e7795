//! Trusted boundary to the MQTT protocol engine.
//!
//! The engine (rumqttc) owns framing, keep-alive pings and acknowledgement
//! bookkeeping; this module declares the engine types the library holds and
//! wraps the few calls its logic makes. Each wrapper's contract states no
//! more than the engine's source shows.

use vstd::prelude::*;

verus! {

/// Handle to the protocol engine's request channel for one connection.
#[verifier::external_type_specification]
#[verifier::external_body]
pub struct ExAsyncClient(rumqttc::AsyncClient);

/// The protocol event loop that a driver task polls.
#[verifier::external_type_specification]
#[verifier::external_body]
pub struct ExEventLoop(rumqttc::EventLoop);

/// Connection options handed to the engine.
#[verifier::external_type_specification]
#[verifier::external_body]
pub struct ExMqttOptions(rumqttc::MqttOptions);

/// A built transport-security context.
#[verifier::external_type_specification]
#[verifier::external_body]
pub struct ExTlsConfiguration(rumqttc::TlsConfiguration);

/// Sender half of the shutdown channel of one driver task.
#[verifier::external_type_specification]
#[verifier::external_body]
#[verifier::reject_recursive_types(T)]
pub struct ExSender<T>(tokio::sync::mpsc::Sender<T>);

/// Receiver half of the shutdown channel of one driver task.
#[verifier::external_type_specification]
#[verifier::external_body]
#[verifier::reject_recursive_types(T)]
pub struct ExReceiver<T>(tokio::sync::mpsc::Receiver<T>);

/// The connection options of one broker session, as plain values the
/// contracts can pin: which client id, keep-alive, clean-session setting and
/// credentials the engine is given, and whether TLS is selected.
pub struct EngineOptions {
    pub client_id: String,
    pub host: String,
    pub port: u16,
    pub keep_alive_secs: u64,
    pub clean_session: bool,
    pub credentials: Option<(String, String)>,
    pub use_tls: bool,
}

/// Relies on rumqttc::MqttOptions::new, set_keep_alive, set_clean_session,
/// set_credentials, set_transport and rumqttc::Transport::tls_with_config:
/// builds the engine's options carrying exactly the given values —
/// credentials are set iff the record holds them, and the TLS transport is
/// selected iff the record's flag is set, with the given context.
/// `set_keep_alive` accepts any whole number of seconds;
/// `set_clean_session(false)` panics when the client id is empty, which the
/// precondition rules out.
#[verifier::external_body]
pub fn options_from(
    opts: &EngineOptions,
    tls: Option<rumqttc::TlsConfiguration>,
) -> rumqttc::MqttOptions
    requires
        opts.clean_session || opts.client_id@.len() > 0,
        (tls is Some) == opts.use_tls,
{
    let mut options =
        rumqttc::MqttOptions::new(opts.client_id.clone(), opts.host.clone(), opts.port);
    options.set_keep_alive(std::time::Duration::from_secs(opts.keep_alive_secs));
    options.set_clean_session(opts.clean_session);
    if let Some((username, password)) = &opts.credentials {
        options.set_credentials(username.clone(), password.clone());
    }
    if let Some(config) = tls {
        options.set_transport(rumqttc::Transport::tls_with_config(config));
    }
    options
}

/// Relies on rumqttc::AsyncClient::new: creates the client handle and the
/// event loop of one connection, with a request channel of capacity `cap`.
#[verifier::external_body]
pub fn client_new(options: rumqttc::MqttOptions, cap: usize) -> (rumqttc::AsyncClient, rumqttc::EventLoop) {
    rumqttc::AsyncClient::new(options, cap)
}

/// Relies on tokio::sync::mpsc::channel: creates the one-slot shutdown
/// channel of one driver task.
#[verifier::external_body]
pub fn shutdown_channel() -> (tokio::sync::mpsc::Sender<()>, tokio::sync::mpsc::Receiver<()>) {
    tokio::sync::mpsc::channel(1)
}

/// Relies on tokio::sync::mpsc::Sender::try_send: places the shutdown signal
/// in the channel; returns false when the channel is full (a signal is
/// already pending) or the driver task is gone.
#[verifier::external_body]
pub fn send_shutdown(sender: &tokio::sync::mpsc::Sender<()>) -> bool {
    sender.try_send(()).is_ok()
}

/// Relies on rumqttc::qos: maps 0, 1 and 2 to the engine's quality-of-service
/// levels; other numbers are refused, which the precondition rules out.
#[verifier::external_body]
pub fn qos_level(qos: u8) -> rumqttc::QoS
    requires
        qos <= 2,
{
    match rumqttc::qos(qos) {
        Ok(q) => q,
        Err(_) => rumqttc::QoS::AtMostOnce,
    }
}

/// Quality-of-service level of the engine.
#[verifier::external_type_specification]
#[verifier::external_body]
pub struct ExQoS(rumqttc::QoS);

/// Relies on rumqttc::AsyncClient::try_publish: hands one publish request to
/// the engine without blocking; fails when the request queue is full, the
/// event loop is gone, or the topic is not a valid publish topic. The error
/// text is the engine's own description.
#[verifier::external_body]
pub fn try_publish(
    client: &rumqttc::AsyncClient,
    topic: String,
    qos: rumqttc::QoS,
    retain: bool,
    payload: Vec<u8>,
) -> Result<(), String> {
    client.try_publish(topic, qos, retain, payload).map_err(|e| e.to_string())
}

/// Relies on rumqttc::AsyncClient::try_subscribe: hands one subscribe request
/// to the engine without blocking; fails when the request queue is full or
/// the event loop is gone. The error text is the engine's own description.
#[verifier::external_body]
pub fn try_subscribe(client: &rumqttc::AsyncClient, topic: String, qos: rumqttc::QoS) -> Result<(), String> {
    client.try_subscribe(topic, qos).map_err(|e| e.to_string())
}

/// Relies on rumqttc::AsyncClient::try_unsubscribe: hands one unsubscribe
/// request to the engine without blocking; fails when the request queue is
/// full or the event loop is gone. The error text is the engine's own
/// description.
#[verifier::external_body]
pub fn try_unsubscribe(client: &rumqttc::AsyncClient, topic: String) -> Result<(), String> {
    client.try_unsubscribe(topic).map_err(|e| e.to_string())
}

/// Relies on uuid::Uuid::new_v4 and its Display form: a freshly drawn random
/// identifier; nothing is promised of its text.
#[verifier::external_body]
pub fn uuid_v4_string() -> String {
    uuid::Uuid::new_v4().to_string()
}

/// Relies on chrono::Utc::now and DateTime::to_rfc3339: the current wall
/// clock as an RFC 3339 timestamp; nothing is promised of its text.
#[verifier::external_body]
pub fn now_rfc3339() -> String {
    chrono::Utc::now().to_rfc3339()
}

} // verus!
