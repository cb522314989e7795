//! The per-connection driver state machine.
//!
//! A live connection is driven by one background task that repeatedly waits
//! for either a shutdown signal or the next protocol event, and feeds what it
//! received into [`driver_step`]. The step function owns every decision of
//! the loop: how the connection state changes, which event is delivered to
//! observers, and whether the task must exit. On any exit the task retires
//! its registry entry, so a later connect for the same broker starts clean.

use vstd::prelude::*;
use vstd::string::StringExecFns;

verus! {

/// A connection-state transition of one broker, as delivered to observers.
/// `status` is "disconnected", "connecting", "connected" or "error".
#[derive(Debug, Clone)]
pub struct ConnectionState {
    pub server_id: i64,
    pub status: String,
    pub error: Option<String>,
}

/// An inbound message of one broker, as delivered to observers.
#[derive(Debug, Clone)]
pub struct ReceivedMessage {
    pub server_id: i64,
    pub topic: String,
    pub payload: Vec<u8>,
    pub qos: u8,
    pub retain: bool,
    pub timestamp: String,
}

/// What one iteration of the driver loop received: the shutdown signal, or
/// one protocol event, already reduced to plain values.
#[derive(Debug)]
pub enum DriverEvent {
    /// The owner of the connection asked the driver to stop.
    Shutdown,
    /// The broker acknowledged the session.
    ConnAckSuccess,
    /// The broker refused the session; the payload names the return code.
    ConnAckFailure(String),
    /// An application message arrived.
    IncomingPublish {
        topic: String,
        payload: Vec<u8>,
        qos: u8,
        retain: bool,
        timestamp: String,
    },
    /// A subscription was acknowledged; accepted silently.
    SubAck,
    /// A keep-alive ping was answered; accepted silently.
    PingResp,
    /// Any other protocol event; accepted silently.
    OtherEvent,
    /// The transport or protocol engine failed; the payload is the reason.
    TransportError(String),
}

/// The driver's own state: whether the broker has acknowledged the session.
#[derive(Debug, Clone, Copy, PartialEq, Eq, Structural)]
pub struct DriverState {
    pub connected: bool,
}

/// One event handed to the observer layer.
#[derive(Debug, Clone)]
pub enum SinkEvent {
    State(ConnectionState),
    Message(ReceivedMessage),
}

/// What one step decided: at most one event to deliver, and whether the
/// driver task must exit (and retire its registry entry).
#[derive(Debug)]
pub struct StepOutcome {
    pub emit: Option<SinkEvent>,
    pub exit: bool,
}

impl DriverState {
    /// The state of a driver that was just started: not yet acknowledged.
    pub fn start() -> (r: DriverState)
        ensures
            !r.connected,
    {
        DriverState { connected: false }
    }
}

/// Holds when `e` is a state event for broker `id` with the given status
/// text and no error.
pub open spec fn is_plain_state_event(e: SinkEvent, id: i64, status: Seq<char>) -> bool {
    &&& e matches SinkEvent::State(cs)
    &&& e->State_0.server_id == id
    &&& e->State_0.status@ == status
    &&& e->State_0.error is None
}

/// Holds when `e` is an error state event for broker `id` whose message is
/// `prefix` followed by `reason`.
pub open spec fn is_error_state_event(e: SinkEvent, id: i64, prefix: Seq<char>, reason: Seq<char>) -> bool {
    &&& e matches SinkEvent::State(cs)
    &&& e->State_0.server_id == id
    &&& e->State_0.status@ == "error"@
    &&& e->State_0.error matches Some(m) && m@ == prefix + reason
}

/// Process one iteration of the driver loop for broker `server_id`.
///
/// This is the whole state machine of a connection: a shutdown signal or a
/// fatal protocol outcome ends the task; a successful acknowledgement marks
/// the session connected; an inbound publish is passed on unchanged; every
/// other protocol event is accepted silently. The driver never retries.
pub fn driver_step(server_id: i64, state: &mut DriverState, event: DriverEvent) -> (r: StepOutcome)
    ensures
        // The shutdown signal is honoured in the very step that sees it.
        event is Shutdown ==> {
            &&& r.exit
            &&& r.emit matches Some(e) && is_plain_state_event(e, server_id, "disconnected"@)
        },
        // A successful acknowledgement is the only way to become connected.
        event is ConnAckSuccess ==> {
            &&& !r.exit
            &&& final(state).connected
            &&& r.emit matches Some(e) && is_plain_state_event(e, server_id, "connected"@)
        },
        // A refused session is fatal and carries the broker's return code.
        event matches DriverEvent::ConnAckFailure(code) ==> {
            &&& r.exit
            &&& r.emit matches Some(e) && is_error_state_event(e, server_id, "Connection refused: "@, code@)
        },
        // An inbound publish is delivered unchanged and changes no state.
        event matches DriverEvent::IncomingPublish { topic, payload, qos, retain, timestamp } ==> {
            &&& !r.exit
            &&& r.emit matches Some(e) && e matches SinkEvent::Message(m) && {
                &&& m.server_id == server_id
                &&& m.topic == topic
                &&& m.payload == payload
                &&& m.qos == qos
                &&& m.retain == retain
                &&& m.timestamp == timestamp
            }
        },
        // Uninteresting protocol events are accepted silently.
        event is SubAck || event is PingResp || event is OtherEvent ==> {
            &&& !r.exit
            &&& r.emit is None
        },
        // A transport failure is fatal; the message says whether the session
        // had been established or the connect attempt itself failed.
        event matches DriverEvent::TransportError(reason) ==> {
            &&& r.exit
            &&& r.emit matches Some(e) && if old(state).connected {
                is_error_state_event(e, server_id, "Connection error: "@, reason@)
            } else {
                is_error_state_event(e, server_id, "Failed to connect: "@, reason@)
            }
        },
        // Nothing but a successful acknowledgement changes the state.
        !(event is ConnAckSuccess) ==> *final(state) == *old(state),
{
    match event {
        DriverEvent::Shutdown => StepOutcome {
            emit: Some(SinkEvent::State(ConnectionState {
                server_id,
                status: "disconnected".to_owned(),
                error: None,
            })),
            exit: true,
        },
        DriverEvent::ConnAckSuccess => {
            state.connected = true;
            StepOutcome {
                emit: Some(SinkEvent::State(ConnectionState {
                    server_id,
                    status: "connected".to_owned(),
                    error: None,
                })),
                exit: false,
            }
        },
        DriverEvent::ConnAckFailure(code) => {
            let mut message = "Connection refused: ".to_owned();
            message.append(code.as_str());
            StepOutcome {
                emit: Some(SinkEvent::State(ConnectionState {
                    server_id,
                    status: "error".to_owned(),
                    error: Some(message),
                })),
                exit: true,
            }
        },
        DriverEvent::IncomingPublish { topic, payload, qos, retain, timestamp } => StepOutcome {
            emit: Some(SinkEvent::Message(ReceivedMessage {
                server_id,
                topic,
                payload,
                qos,
                retain,
                timestamp,
            })),
            exit: false,
        },
        DriverEvent::SubAck => StepOutcome { emit: None, exit: false },
        DriverEvent::PingResp => StepOutcome { emit: None, exit: false },
        DriverEvent::OtherEvent => StepOutcome { emit: None, exit: false },
        DriverEvent::TransportError(reason) => {
            let mut message = if state.connected {
                "Connection error: ".to_owned()
            } else {
                "Failed to connect: ".to_owned()
            };
            message.append(reason.as_str());
            StepOutcome {
                emit: Some(SinkEvent::State(ConnectionState {
                    server_id,
                    status: "error".to_owned(),
                    error: Some(message),
                })),
                exit: true,
            }
        },
    }
}

} // verus!
