//! Error taxonomy of the connection manager. Validation errors are returned
//! synchronously by the command facade; failures discovered inside a running
//! driver are surfaced only as error state events, never here.

use vstd::prelude::*;

verus! {

/// Failure of the transport-security builder.
#[derive(Debug, Clone, Copy, PartialEq, Eq, Structural)]
pub enum TlsError {
    /// A CA or client certificate PEM could not be parsed or held no
    /// acceptable certificate.
    CertificateParseError,
    /// The client key PEM could not be read.
    KeyParseError,
    /// The client key PEM was well-formed but held no private key.
    NoPrivateKeyFound,
    /// The certificate/key pair was rejected when configuring client
    /// authentication.
    ClientAuthConfigError,
}

/// Failure of a connect attempt, returned before any driver is started.
#[derive(Debug, Clone, Copy, PartialEq, Eq, Structural)]
pub enum ConnectError {
    /// The broker configuration carries no id.
    MissingId,
    /// The TLS flag was set and the builder failed.
    TlsConfigError(TlsError),
}

/// Failure of the payload conversion of a publish request.
#[derive(Debug, Clone, Copy, PartialEq, Eq, Structural)]
pub enum PayloadError {
    /// The text was not an even-length run of hex digits.
    InvalidHex,
}

/// Failure of a publish, subscribe or unsubscribe command.
#[derive(Debug, Clone)]
pub enum CommandError {
    /// No live handle exists for the broker id.
    NotConnected,
    /// The requested quality of service is not 0, 1 or 2.
    InvalidQos,
    /// The protocol engine did not accept the request; the payload is the
    /// engine's description.
    TransportError(String),
}

} // verus!
