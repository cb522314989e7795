//! The connection registry and command facade.
//!
//! The manager owns at most one live handle per broker id and is the single
//! source of truth for "is broker X currently connected". `connect` retires
//! any previous handle, registers a new one and hands back what the driver
//! task needs; `publish`, `subscribe` and `unsubscribe` validate the request
//! and delegate to the live handle. The manager itself is sequential; the
//! shell that runs driver tasks shares it behind a lock and calls
//! [`MqttManager::driver_exited`] when a task ends.

use vstd::prelude::*;
use vstd::string::StringExecFns;

use std::collections::HashMap;

use crate::driver::{ConnectionState, SinkEvent};
use crate::engine;
use crate::errors::{CommandError, ConnectError};
use crate::models::MqttServer;
use crate::tls;

verus! {

broadcast use vstd::std_specs::hash::group_hash_axioms;

/// A connect followed at once by a disconnect settles: the connect
/// registered one handle for the id (`connect` ensures the registry is the
/// old one with that id bound), the disconnect signalled its driver
/// (`disconnect` ensures a live handle is signalled), the driver's next step
/// on the shutdown signal exits (`driver_step` ensures `exit` on
/// `Shutdown`), and the exit retires the entry (`driver_exited` removes the
/// id, whose generation is still this driver's own) — after which no handle
/// for the id remains, so `is_connected` is false.
pub proof fn lemma_connect_then_disconnect_settles(
    registry: Map<i64, ClientHandle>,
    handle: ClientHandle,
    server_id: i64,
)
    ensures
        !registry.insert(server_id, handle).remove(server_id).contains_key(server_id),
{
}

/// A second connect for the same id supersedes the first entirely: the
/// registry never holds two handles for one id, and after the second
/// connect it holds exactly the second handle for that id — the state is
/// the same as if the first connect had never registered its handle.
pub proof fn lemma_second_connect_supersedes(
    registry: Map<i64, ClientHandle>,
    first: ClientHandle,
    second: ClientHandle,
    server_id: i64,
)
    ensures
        registry.insert(server_id, first).insert(server_id, second) == registry.insert(
            server_id,
            second,
        ),
        registry.insert(server_id, first).insert(server_id, second)[server_id] == second,
{
    assert(registry.insert(server_id, first).insert(server_id, second) =~= registry.insert(
        server_id,
        second,
    ));
}

/// A superseded driver's exit leaves the successor untouched: once a new
/// handle for the id is registered, the retirement condition of the old
/// driver — that the registered generation is still its own — is false, so
/// `driver_exited` with the stale generation removes nothing.
pub proof fn lemma_stale_exit_leaves_successor(
    registry: Map<i64, ClientHandle>,
    successor: ClientHandle,
    server_id: i64,
    stale_generation: u64,
)
    requires
        successor.generation != stale_generation,
    ensures
        ({
            let after = registry.insert(server_id, successor);
            !(after.contains_key(server_id) && after[server_id].generation == stale_generation)
        }),
{
}

/// The live resource of one broker connection: the engine's client handle,
/// the driver task's shutdown signal, and the generation that names which
/// connect created it — the driver that owns this generation is the only
/// one whose exit may retire the entry.
pub struct ClientHandle {
    pub client: rumqttc::AsyncClient,
    pub shutdown_tx: tokio::sync::mpsc::Sender<()>,
    pub generation: u64,
}

/// What a successful connect hands to the shell: the event loop and shutdown
/// receiver the new driver task runs on, the generation of the handle this
/// driver owns, and the plain options the engine was given.
pub struct ConnectStart {
    pub server_id: i64,
    pub event_loop: rumqttc::EventLoop,
    pub shutdown_rx: tokio::sync::mpsc::Receiver<()>,
    pub generation: u64,
    pub options: engine::EngineOptions,
}

/// The multi-broker connection manager: a registry from broker id to the one
/// live handle of that broker, and the counter the handles' generations are
/// drawn from.
pub struct MqttManager {
    clients: HashMap<i64, ClientHandle>,
    next_generation: u64,
}

impl View for MqttManager {
    type V = Map<i64, ClientHandle>;

    closed spec fn view(&self) -> Map<i64, ClientHandle> {
        self.clients@
    }
}

impl MqttManager {
    /// The generation the next connect will hand out.
    pub closed spec fn spec_next_generation(&self) -> u64 {
        self.next_generation
    }

    /// Every registered handle's generation was drawn from the counter, so
    /// the next connect hands out a generation no live handle has.
    pub open spec fn wf(&self) -> bool {
        forall|k: i64|
            self@.contains_key(k) ==> (#[trigger] self@[k]).generation
                < self.spec_next_generation()
    }

    /// Whether another connection generation can still be drawn.
    pub fn generations_left(&self) -> (r: bool)
        ensures
            r == (self.spec_next_generation() < u64::MAX),
    {
        self.next_generation < u64::MAX
    }
}

impl MqttManager {
    /// A manager with no live connections.
    pub fn new() -> (r: MqttManager)
        ensures
            r@ == Map::<i64, ClientHandle>::empty(),
            r.wf(),
            r.spec_next_generation() == 0,
    {
        MqttManager { clients: HashMap::new(), next_generation: 0 }
    }

    /// True iff a live handle exists for the broker: a driver task is
    /// running for it, which includes the connecting phase.
    pub fn is_connected(&self, server_id: i64) -> (r: bool)
        ensures
            r == self@.contains_key(server_id),
    {
        self.clients.contains_key(&server_id)
    }

    /// Send the shutdown signal to the broker's driver task, if one is
    /// live; a no-op otherwise, never an error. Does not wait for the task
    /// to end and removes nothing: the driver retires its own entry.
    /// Returns whether a live handle was signalled.
    pub fn disconnect(&self, server_id: i64) -> (signalled: bool)
        ensures
            signalled == self@.contains_key(server_id),
    {
        match self.clients.get(&server_id) {
            Some(handle) => {
                let _ = engine::send_shutdown(&handle.shutdown_tx);
                true
            },
            None => false,
        }
    }

    /// Remove the registry entry of a driver task that has exited, but only
    /// when the entry is still that driver's own — named by the generation
    /// the driver's connect handed out. Called by the task itself on every
    /// terminal path, so a later connect for the same id starts clean; when
    /// a newer connect has already registered its own handle under the id,
    /// the stale driver's exit leaves that handle alone.
    pub fn driver_exited(&mut self, server_id: i64, generation: u64)
        ensures
            final(self)@ == if old(self)@.contains_key(server_id) && old(self)@[
                server_id].generation == generation {
                old(self)@.remove(server_id)
            } else {
                old(self)@
            },
            final(self).spec_next_generation() == old(self).spec_next_generation(),
            old(self).wf() ==> final(self).wf(),
    {
        let owned = match self.clients.get(&server_id) {
            Some(handle) => handle.generation == generation,
            None => false,
        };
        if owned {
            let _ = self.clients.remove(&server_id);
        }
    }

    /// Connect to the broker described by `server`.
    ///
    /// Requires an id; retires any previous handle for that id first, so at
    /// most one handle per broker ever exists. Pushes the `connecting` state
    /// event, builds the engine options from the configuration — the exact
    /// plain values handed to the engine come back in the result — and, when
    /// flagged, the TLS context; registers the new handle under a fresh
    /// generation and returns what the driver task runs on. Succeeds exactly
    /// when an id is present and any supplied TLS material passes the
    /// builder. Returns without waiting for the broker: `connected` or
    /// `error` arrive later through the driver's events. A previously
    /// registered handle keeps its own, older generation, so its exiting
    /// driver cannot retire the new entry.
    ///
    /// A caller that unsets clean session must supply a non-empty client id
    /// or none at all; the engine refuses that combination. The generation
    /// counter must not be exhausted.
    pub fn connect(&mut self, server: MqttServer, events: &mut Vec<SinkEvent>) -> (r: Result<
        ConnectStart,
        ConnectError,
    >)
        requires
            server.id is Some && !server.clean_session ==> (server.client_id matches Some(cid)
                ==> cid@.len() > 0),
            old(self).wf(),
            old(self).spec_next_generation() < u64::MAX,
        ensures
            final(self).wf(),
            r is Ok ==> final(self).spec_next_generation() == old(self).spec_next_generation()
                + 1,
            r is Err ==> final(self).spec_next_generation() == old(self).spec_next_generation(),
            r matches Ok(start) ==> start.generation == old(self).spec_next_generation(),
            (r matches Err(ConnectError::MissingId)) <==> server.id is None,
            (r matches Err(ConnectError::TlsConfigError(_))) ==> server.use_tls,
            server.use_tls && server.id is Some ==> ({
                let plan = tls::spec_tls_plan(server.ca_cert, server.client_cert, server.client_key);
                let ca_text = server.ca_cert->Some_0@;
                let cert_text = server.client_cert->Some_0@;
                let key_text = server.client_key->Some_0@;
                let key_out = tls::pem_key_outcome(key_text);
                let pems_ok = (plan.custom_ca ==> tls::pem_certs_ok(ca_text)) && (plan.client_auth
                    ==> (tls::pem_certs_ok(cert_text) && key_out == Some(true)));
                let ca_side_ok = plan.custom_ca ==> (tls::pem_certs_ok(ca_text)
                    && tls::ca_anchors_ok(ca_text));
                let auth_side_ok = plan.client_auth ==> (tls::pem_certs_ok(cert_text) && key_out
                    == Some(true) && tls::auth_config_ok(cert_text, key_text));
                &&& (r is Ok <==> ca_side_ok && auth_side_ok)
                &&& (plan.custom_ca && !tls::pem_certs_ok(ca_text)) ==> r == Result::<
                    ConnectStart,
                    ConnectError,
                >::Err(ConnectError::TlsConfigError(crate::errors::TlsError::CertificateParseError))
                &&& (plan.client_auth && (plan.custom_ca ==> tls::pem_certs_ok(ca_text))
                    && !tls::pem_certs_ok(cert_text)) ==> r == Result::<
                    ConnectStart,
                    ConnectError,
                >::Err(ConnectError::TlsConfigError(crate::errors::TlsError::CertificateParseError))
                &&& (plan.client_auth && (plan.custom_ca ==> tls::pem_certs_ok(ca_text))
                    && tls::pem_certs_ok(cert_text) && key_out is None) ==> r == Result::<
                    ConnectStart,
                    ConnectError,
                >::Err(ConnectError::TlsConfigError(crate::errors::TlsError::KeyParseError))
                &&& (plan.client_auth && (plan.custom_ca ==> tls::pem_certs_ok(ca_text))
                    && tls::pem_certs_ok(cert_text) && key_out == Some(false)) ==> r == Result::<
                    ConnectStart,
                    ConnectError,
                >::Err(ConnectError::TlsConfigError(crate::errors::TlsError::NoPrivateKeyFound))
                &&& (plan.custom_ca && pems_ok && !tls::ca_anchors_ok(ca_text)) ==> r == Result::<
                    ConnectStart,
                    ConnectError,
                >::Err(ConnectError::TlsConfigError(crate::errors::TlsError::CertificateParseError))
                &&& (plan.client_auth && pems_ok && ca_side_ok && !tls::auth_config_ok(
                    cert_text,
                    key_text,
                )) ==> r == Result::<ConnectStart, ConnectError>::Err(
                    ConnectError::TlsConfigError(crate::errors::TlsError::ClientAuthConfigError),
                )
            }),
            server.id matches Some(id) ==> {
                &&& final(events)@.len() == old(events)@.len() + 1
                &&& final(events)@.subrange(0, old(events)@.len() as int) == old(events)@
                &&& crate::driver::is_plain_state_event(final(events)@.last(), id, "connecting"@)
                &&& r matches Ok(start) ==> {
                    &&& start.server_id == id
                    &&& final(self)@.contains_key(id)
                    &&& final(self)@.dom() == old(self)@.dom().insert(id)
                    &&& forall|k: i64| k != id && old(self)@.contains_key(k)
                        ==> final(self)@[k] == old(self)@[k]
                    &&& final(self)@[id].generation == start.generation
                    &&& old(self)@.contains_key(id) ==> start.generation != old(self)@[
                        id].generation
                    &&& start.options.host == server.host
                    &&& start.options.port == server.port as u16
                    &&& start.options.keep_alive_secs == server.keep_alive as u64
                    &&& start.options.clean_session == server.clean_session
                    &&& start.options.use_tls == server.use_tls
                    &&& (match server.client_id {
                        Some(cid) => start.options.client_id == cid,
                        None => start.options.client_id@.len() >= "mqtt_client_"@.len()
                            && start.options.client_id@.subrange(
                            0,
                            "mqtt_client_"@.len() as int,
                        ) == "mqtt_client_"@,
                    })
                    &&& start.options.credentials == (match (server.username, server.password) {
                        (Some(u), Some(p)) => if u@.len() > 0 {
                            Some((u, p))
                        } else {
                            None
                        },
                        _ => None,
                    })
                }
                &&& r is Err ==> final(self)@ == old(self)@
            },
            server.id is None ==> final(self)@ == old(self)@ && final(events)@ == old(events)@,
            !server.use_tls && server.id is Some ==> r is Ok,
    {
        let server_id = match server.id {
            Some(id) => id,
            None => {
                return Err(ConnectError::MissingId);
            },
        };

        // Retire any previous handle first: at most one per broker id.
        let _ = self.disconnect(server_id);

        events.push(SinkEvent::State(ConnectionState {
            server_id,
            status: "connecting".to_owned(),
            error: None,
        }));

        let client_id = match server.client_id {
            Some(cid) => cid,
            None => {
                let mut generated = "mqtt_client_".to_owned();
                generated.append(engine::uuid_v4_string().as_str());
                proof {
                    reveal_strlit("mqtt_client_");
                    assert(generated@.subrange(0, "mqtt_client_"@.len() as int)
                        =~= "mqtt_client_"@);
                }
                generated
            },
        };

        let credentials: Option<(String, String)> = match (server.username, server.password) {
            (Some(username), Some(password)) => {
                if !username.as_str().is_empty() {
                    Some((username, password))
                } else {
                    None
                }
            },
            _ => None,
        };

        let options = engine::EngineOptions {
            client_id,
            host: server.host,
            port: #[verifier::truncate] (server.port as u16),
            keep_alive_secs: #[verifier::truncate] (server.keep_alive as u64),
            clean_session: server.clean_session,
            credentials,
            use_tls: server.use_tls,
        };

        let tls_config: Option<rumqttc::TlsConfiguration> = if server.use_tls {
            match tls::build_tls_config(&server.ca_cert, &server.client_cert, &server.client_key) {
                Ok(config) => Some(config),
                Err(e) => {
                    return Err(ConnectError::TlsConfigError(e));
                },
            }
        } else {
            None
        };

        let engine_options = engine::options_from(&options, tls_config);
        let (client, event_loop) = engine::client_new(engine_options, 100);
        let (shutdown_tx, shutdown_rx) = engine::shutdown_channel();

        let generation = self.next_generation;
        self.next_generation = self.next_generation + 1;
        let _ = self.clients.insert(server_id, ClientHandle { client, shutdown_tx, generation });

        Ok(ConnectStart { server_id, event_loop, shutdown_rx, generation, options })
    }

    /// Hand one publish request to the broker's engine.
    ///
    /// Fails with `NotConnected` when no live handle exists, with
    /// `InvalidQos` when the quality of service is not 0, 1 or 2; otherwise
    /// the request is submitted and only the engine's refusal to accept it
    /// is an error. No handle is created or removed.
    pub fn publish(
        &self,
        server_id: i64,
        topic: String,
        payload: Vec<u8>,
        qos: u8,
        retain: bool,
    ) -> (r: Result<(), CommandError>)
        ensures
            (r matches Err(CommandError::NotConnected)) <==> !self@.contains_key(server_id),
            (r matches Err(CommandError::InvalidQos)) <==> self@.contains_key(server_id) && qos
                > 2,
            self@.contains_key(server_id) && qos <= 2 ==> (r is Ok || r matches Err(
                CommandError::TransportError(_),
            )),
    {
        let client = match self.clients.get(&server_id) {
            Some(handle) => &handle.client,
            None => {
                return Err(CommandError::NotConnected);
            },
        };
        if qos > 2 {
            return Err(CommandError::InvalidQos);
        }
        let level = engine::qos_level(qos);
        match engine::try_publish(client, topic, level, retain, payload) {
            Ok(()) => Ok(()),
            Err(reason) => Err(CommandError::TransportError(reason)),
        }
    }

    /// Hand one subscribe request to the broker's engine; the same
    /// `NotConnected` and `InvalidQos` validation as publish.
    pub fn subscribe(&self, server_id: i64, topic: String, qos: u8) -> (r: Result<
        (),
        CommandError,
    >)
        ensures
            (r matches Err(CommandError::NotConnected)) <==> !self@.contains_key(server_id),
            (r matches Err(CommandError::InvalidQos)) <==> self@.contains_key(server_id) && qos
                > 2,
            self@.contains_key(server_id) && qos <= 2 ==> (r is Ok || r matches Err(
                CommandError::TransportError(_),
            )),
    {
        let client = match self.clients.get(&server_id) {
            Some(handle) => &handle.client,
            None => {
                return Err(CommandError::NotConnected);
            },
        };
        if qos > 2 {
            return Err(CommandError::InvalidQos);
        }
        let level = engine::qos_level(qos);
        match engine::try_subscribe(client, topic, level) {
            Ok(()) => Ok(()),
            Err(reason) => Err(CommandError::TransportError(reason)),
        }
    }

    /// Hand one unsubscribe request to the broker's engine; fails with
    /// `NotConnected` when no live handle exists, never with `InvalidQos`.
    pub fn unsubscribe(&self, server_id: i64, topic: String) -> (r: Result<(), CommandError>)
        ensures
            (r matches Err(CommandError::NotConnected)) <==> !self@.contains_key(server_id),
            !(r matches Err(CommandError::InvalidQos)),
            self@.contains_key(server_id) ==> (r is Ok || r matches Err(
                CommandError::TransportError(_),
            )),
    {
        let client = match self.clients.get(&server_id) {
            Some(handle) => &handle.client,
            None => {
                return Err(CommandError::NotConnected);
            },
        };
        match engine::try_unsubscribe(client, topic) {
            Ok(()) => Ok(()),
            Err(reason) => Err(CommandError::TransportError(reason)),
        }
    }
}

} // verus!


