//! The decisions of a listener and of the worker that serves one connection.
//!
//! Both are state machines over a status snapshot: the runner waits for the
//! next event (a read, a timeout, a shutdown signal), hands it in, and
//! carries out what the step asks for.

use vstd::prelude::*;
use crate::comms::{
    peer_slot,
    PeerAddress,
    ServerConfig,
    ServerStatusInfo,
    slot_of_ipv4,
};
use crate::constants::BIND_RETRY_DELAY_SECS;
use crate::event_data::{
    be_word,
    decode_frame,
    is_system_packet,
    is_well_framed,
    parse_event_data_packet,
    EventDataPacket,
};
use crate::text::decimal;

verus! {

/// What to do when a listener cannot bind its address.
#[derive(Clone, Copy, Debug, PartialEq, Eq, Structural)]
pub enum BindPolicy {
    /// Try again after a fixed delay, for as long as it takes.
    RetryForever,
    /// Give the listener up after the first failure.
    SingleAttempt,
}

/// What a listener does after a failed bind.
#[derive(Clone, Copy, Debug, PartialEq, Eq, Structural)]
pub enum BindDecision {
    /// Wait this many seconds, then bind again.
    RetryAfter(u64),
    Abandon,
}

/// Decides what follows a failed bind, and flags the status as new so that
/// observers learn of the failure.
pub fn bind_failed(policy: BindPolicy, status: &mut ServerStatusInfo) -> (decision: BindDecision)
    ensures
        *final(status) == (ServerStatusInfo { new_data: true, ..*old(status) }),
        decision == match policy {
            BindPolicy::RetryForever => BindDecision::RetryAfter(10),
            BindPolicy::SingleAttempt => BindDecision::Abandon,
        },
{
    status.new_data = true;
    match policy {
        BindPolicy::RetryForever => BindDecision::RetryAfter(BIND_RETRY_DELAY_SECS),
        BindPolicy::SingleAttempt => BindDecision::Abandon,
    }
}

/// The address to bind for the server at `server_number`, or `None` where
/// no such server is configured.
pub fn bind_address(config: &ServerConfig, server_number: usize) -> (address: Option<String>)
    ensures
        match address {
            Some(text) => server_number < config.server@.len() && text@
                == config.server@[server_number as int].ip_address@ + seq![':'] + decimal(
                config.server@[server_number as int].port as nat,
            ),
            None => server_number >= config.server@.len(),
        },
{
    if server_number < config.server.len() {
        Some(config.server[server_number].listen_address())
    } else {
        None
    }
}

/// What a listener waits for.
#[derive(Clone, Copy, Debug, PartialEq, Eq)]
pub enum ListenerEvent {
    /// A peer connected.
    Accepted(PeerAddress),
    /// Accepting failed.
    AcceptFailed,
    /// The shutdown signal fired.
    Shutdown,
}

/// What a listener does next.
#[derive(Clone, Copy, Debug, PartialEq, Eq)]
pub struct ListenerStep {
    /// The status a new connection worker starts from, where one is to be
    /// spawned.
    pub worker: Option<ServerStatusInfo>,
    pub keep_listening: bool,
}

/// Whether `worker` is the status a worker starts from when `peer` connected
/// to a listener whose status is `base`: that status with the peer recorded,
/// connected, and flagged as new.
pub open spec fn accepted_status(
    base: ServerStatusInfo,
    worker: ServerStatusInfo,
    peer: PeerAddress,
) -> bool {
    &&& worker == (ServerStatusInfo {
        peer_ip: worker.peer_ip,
        is_connected: true,
        new_data: true,
        ..base
    })
    &&& worker.peer_ip@ == peer_slot(peer)
}

/// One step of a listener. An accepted peer gets a worker of its own, which
/// starts from the listener's status with the peer's address recorded and
/// the connection marked; the listener goes on. A failed accept or the
/// shutdown signal ends the listener.
pub fn listener_step(base: &ServerStatusInfo, event: ListenerEvent) -> (step: ListenerStep)
    ensures
        match event {
            ListenerEvent::Accepted(peer) => step.keep_listening && (step.worker matches Some(
                worker,
            ) && accepted_status(*base, worker, peer)),
            _ => !step.keep_listening && step.worker.is_none(),
        },
{
    match event {
        ListenerEvent::Accepted(peer) => {
            let mut worker: ServerStatusInfo = *base;
            worker.peer_ip = match peer {
                PeerAddress::V4(octets) => slot_of_ipv4(&octets),
                PeerAddress::V6(octets) => octets,
            };
            worker.is_connected = true;
            worker.new_data = true;
            ListenerStep { worker: Some(worker), keep_listening: true }
        },
        _ => ListenerStep { worker: None, keep_listening: false },
    }
}

/// What a connection worker waits for.
#[derive(Debug)]
pub enum ConnectionEvent {
    /// A read returned these bytes; none at all means the peer closed.
    Read(Vec<u8>),
    ReadFailed,
    /// Nothing arrived for the idle period.
    IdleTimeout,
    /// The shutdown signal fired.
    Shutdown,
    /// The acknowledgement could not be written.
    AckFailed,
    /// The store refused the packet handed to it.
    StoreFailed,
}

/// What a connection worker does next.
pub struct ConnectionStep {
    /// Publish the status snapshot.
    pub publish: bool,
    /// The packet to persist, if any.
    pub store: Option<EventDataPacket>,
    /// The bytes read were no frame and are dropped.
    pub malformed: bool,
    /// Write the acknowledgement back.
    pub acknowledge: bool,
    /// Go on serving the connection.
    pub keep_open: bool,
}

/// Whether an event is a read that brought data.
pub open spec fn brought_data(event: ConnectionEvent) -> bool {
    event matches ConnectionEvent::Read(bytes) && bytes@.len() > 0
}

/// The bytes an event brought; empty for every event but a read.
pub open spec fn bytes_of(event: ConnectionEvent) -> Seq<u8> {
    match event {
        ConnectionEvent::Read(bytes) => bytes@,
        _ => Seq::empty(),
    }
}

/// The status after an event at time `now_millis`.
pub open spec fn status_after(
    status: ServerStatusInfo,
    event: ConnectionEvent,
    now_millis: u64,
) -> ServerStatusInfo {
    match event {
        ConnectionEvent::Read(bytes) => if bytes@.len() == 0 {
            ServerStatusInfo { is_connected: false, ..status }
        } else {
            ServerStatusInfo {
                is_running: true,
                is_alive: true,
                is_connected: true,
                new_data: true,
                last_packet_time: now_millis,
                ..status
            }
        },
        ConnectionEvent::IdleTimeout => ServerStatusInfo {
            is_alive: false,
            new_data: true,
            ..status
        },
        _ => status,
    }
}

/// Whether bytes are a frame that is to be persisted: well framed, and not
/// of the liveness-only type.
pub open spec fn is_storable(bytes: Seq<u8>) -> bool {
    is_well_framed(bytes) && be_word(bytes, 0) != 12
}

/// Whether the connection goes on after an event: after data, after an
/// idle period, and after a refusal by the store.
pub open spec fn stays_open(event: ConnectionEvent) -> bool {
    brought_data(event) || event is IdleTimeout || event is StoreFailed
}

/// One step of a connection worker.
///
/// A read without bytes means the peer closed: the status is marked not
/// connected and the worker ends. A read with bytes marks the status
/// running, alive, connected and new, stamps it with `now_millis`, and
/// publishes it; the bytes are decoded, and a frame that is well formed
/// and not liveness-only is handed on to be stored; malformed bytes are
/// dropped; either way the acknowledgement is written and the worker goes on.
/// An idle period marks the status not alive and new, publishes it, and the
/// worker goes on. A refusal by the store changes nothing. A failed read, a
/// failed acknowledgement and the shutdown signal end the worker.
pub fn connection_step(
    status: &mut ServerStatusInfo,
    event: &ConnectionEvent,
    now_millis: u64,
) -> (step: ConnectionStep)
    ensures
        *final(status) == status_after(*old(status), *event, now_millis),
        step.publish == (brought_data(*event) || *event is IdleTimeout),
        step.acknowledge == brought_data(*event),
        step.keep_open == stays_open(*event),
        step.malformed == (brought_data(*event) && !is_well_framed(bytes_of(*event))),
        step.store.is_some() == (brought_data(*event) && is_storable(bytes_of(*event))),
        step.store matches Some(packet) ==> packet.data_type != 12 && packet.raw@ == bytes_of(
            *event,
        ) && Some(packet.frame()) == decode_frame(bytes_of(*event)),
{
    match event {
        ConnectionEvent::Read(bytes) => {
            if bytes.len() == 0 {
                status.is_connected = false;
                return ConnectionStep {
                    publish: false,
                    store: None,
                    malformed: false,
                    acknowledge: false,
                    keep_open: false,
                };
            }
            status.is_running = true;
            status.is_alive = true;
            status.is_connected = true;
            status.new_data = true;
            status.last_packet_time = now_millis;
            let parsed = parse_event_data_packet(bytes.as_slice());
            let (store, malformed) = match parsed {
                Some(packet) => {
                    if is_system_packet(&packet) {
                        (None, false)
                    } else {
                        (Some(packet), false)
                    }
                },
                None => (None, true),
            };
            ConnectionStep { publish: true, store, malformed, acknowledge: true, keep_open: true }
        },
        ConnectionEvent::IdleTimeout => {
            status.is_alive = false;
            status.new_data = true;
            ConnectionStep {
                publish: true,
                store: None,
                malformed: false,
                acknowledge: false,
                keep_open: true,
            }
        },
        ConnectionEvent::StoreFailed => ConnectionStep {
            publish: false,
            store: None,
            malformed: false,
            acknowledge: false,
            keep_open: true,
        },
        _ => ConnectionStep {
            publish: false,
            store: None,
            malformed: false,
            acknowledge: false,
            keep_open: false,
        },
    }
}

/// The acknowledgement written back after every read that brought data: the
/// three ASCII bytes `ACK`.
pub fn acknowledgement() -> (bytes: [u8; 3])
    ensures
        bytes@ == seq![65u8, 67u8, 75u8],
{
    let bytes: [u8; 3] = [65, 67, 75];
    assert(bytes@ =~= seq![65u8, 67u8, 75u8]);
    bytes
}

/// A liveness-only frame is never handed on to be stored, whatever its
/// payload and whatever the status.
pub proof fn lemma_keepalive_never_stored(bytes: Seq<u8>)
    requires
        is_well_framed(bytes),
        decode_frame(bytes).unwrap().data_type == 12,
    ensures
        !is_storable(bytes),
{
    crate::event_data::lemma_be_bytes_of_be_word(bytes, 0);
}

} // verus!
