//! Multi-broker MQTT connection manager.
//!
//! The crate owns the logic of a desktop MQTT workbench: a registry of live
//! broker connections, the per-connection driver state machine, validation of
//! publish/subscribe commands, TLS configuration from PEM material, and the
//! keyed-record store for broker configurations, subscriptions, message
//! history and command templates. Network and file I/O live outside, in a
//! thin shell that calls into this library.

pub mod commands;
pub mod driver;
pub mod engine;
pub mod errors;
pub mod logging;
pub mod manager;
pub mod models;
pub mod payload;
pub mod store;
pub mod tls;

pub use models::default_true;
