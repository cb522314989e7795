//! Record types of the workbench: broker configurations, subscriptions,
//! message history, publish requests, command templates and scripts.

use vstd::prelude::*;

verus! {

/// Configuration of one MQTT broker. `id` is assigned by the store; a
/// connect attempt requires it to be present. TLS material is consulted
/// only when `use_tls` is set.
#[derive(Debug, Clone)]
pub struct MqttServer {
    pub id: Option<i64>,
    pub name: String,
    pub host: String,
    pub port: i32,
    pub protocol_version: String,
    pub username: Option<String>,
    pub password: Option<String>,
    pub client_id: Option<String>,
    pub keep_alive: i32,
    pub clean_session: bool,
    pub use_tls: bool,
    pub ca_cert: Option<String>,
    pub client_cert: Option<String>,
    pub client_key: Option<String>,
    pub client_key_password: Option<String>,
    pub created_at: Option<String>,
    pub updated_at: Option<String>,
}

/// A stored topic subscription for one broker.
#[derive(Debug, Clone)]
pub struct Subscription {
    pub id: Option<i64>,
    pub server_id: i64,
    pub topic: String,
    pub qos: i32,
    pub is_active: bool,
    pub created_at: Option<String>,
}

/// Default for the `is_active` flag of a freshly read subscription record.
pub fn default_true() -> (r: bool)
    ensures
        r,
{
    true
}

/// One entry of the per-broker message history; `direction` is
/// "publish" or "receive".
#[derive(Debug, Clone)]
pub struct MessageHistory {
    pub id: Option<i64>,
    pub server_id: i64,
    pub direction: String,
    pub topic: String,
    pub payload: Option<String>,
    pub payload_format: Option<String>,
    pub qos: i32,
    pub retain: bool,
    pub created_at: Option<String>,
}

/// A caller-supplied publish request; `format` is "json", "hex" or "text".
#[derive(Debug, Clone)]
pub struct PublishPayload {
    pub topic: String,
    pub payload: String,
    pub qos: i32,
    pub retain: bool,
    pub format: String,
}

/// A stored, reusable publish command.
#[derive(Debug, Clone)]
pub struct CommandTemplate {
    pub id: Option<i64>,
    pub server_id: i64,
    pub name: String,
    pub topic: String,
    pub payload: String,
    pub payload_type: String,
    pub qos: i32,
    pub retain: bool,
    pub description: Option<String>,
    pub category: Option<String>,
    pub use_count: i64,
    pub last_used_at: Option<String>,
    pub created_at: Option<String>,
    pub updated_at: Option<String>,
}

/// Request to create a new command template.
#[derive(Debug, Clone)]
pub struct CreateTemplateRequest {
    pub server_id: i64,
    pub name: String,
    pub topic: String,
    pub payload: String,
    pub payload_type: String,
    pub qos: i32,
    pub retain: bool,
    pub description: Option<String>,
    pub category: Option<String>,
}

/// Request to change fields of an existing template; `None` keeps a field.
#[derive(Debug, Clone)]
pub struct UpdateTemplateRequest {
    pub id: i64,
    pub name: Option<String>,
    pub topic: Option<String>,
    pub payload: Option<String>,
    pub payload_type: Option<String>,
    pub qos: Option<i32>,
    pub retain: Option<bool>,
    pub description: Option<String>,
    pub category: Option<String>,
}

/// Request to change a stored subscription's topic or quality of service;
/// `None` keeps a field.
#[derive(Debug, Clone)]
pub struct UpdateSubscriptionRequest {
    pub id: i64,
    pub topic: Option<String>,
    pub qos: Option<i32>,
}

/// A stored message-processing script; `script_type` is "before_publish"
/// or "after_receive".
#[derive(Debug, Clone)]
pub struct Script {
    pub id: Option<i64>,
    pub server_id: i64,
    pub name: String,
    pub script_type: String,
    pub code: String,
    pub enabled: bool,
    pub description: Option<String>,
    pub created_at: Option<String>,
    pub updated_at: Option<String>,
}

/// Request to create a new script.
#[derive(Debug, Clone)]
pub struct CreateScriptRequest {
    pub server_id: i64,
    pub name: String,
    pub script_type: String,
    pub code: String,
    pub enabled: bool,
    pub description: Option<String>,
}

/// Request to change fields of an existing script; `None` keeps a field.
#[derive(Debug, Clone)]
pub struct UpdateScriptRequest {
    pub id: i64,
    pub name: Option<String>,
    pub code: Option<String>,
    pub enabled: Option<bool>,
    pub description: Option<String>,
}

} // verus!
