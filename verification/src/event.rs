//! The event and command vocabulary of the core.
//!
//! Events arrive from two external collaborators: the raw connection
//! multiplexer ([`RawEvent`]) and the per-connection protocol handler
//! ([`ProtocolEvent`], carried inside [`RawEvent::NodeEvent`]). The core
//! translates them into the small, stable application vocabulary
//! [`ServiceEvent`] and answers with [`NetAction`] instructions for the
//! multiplexer. The application supplies commands through the
//! [`ServiceHandle`] extension point.

use vstd::prelude::*;

use crate::addr::{Multiaddr, PeerId, PublicKey};

verus! {

/// Which side initiated a connection. Immutable once recorded.
#[derive(Clone, Copy, PartialEq, Eq, Structural, Debug)]
pub enum Endpoint {
    /// This node opened the connection.
    Dialer,
    /// The remote opened the connection.
    Listener,
}

/// How a newly established connection presented itself to the multiplexer.
#[derive(Debug)]
pub enum ConnectedPoint {
    /// This node dialed `address`.
    Dialer { address: Multiaddr },
    /// The remote dialed in; `send_back_addr` is the address to reach it.
    Listener { send_back_addr: Multiaddr },
}

/// Connection metadata tracked for one live peer.
#[derive(Debug)]
pub struct NodeInfo {
    /// Which side initiated the connection.
    pub endpoint: Endpoint,
    /// The address seen at connection time.
    pub address: Multiaddr,
}

impl Clone for NodeInfo {
    fn clone(&self) -> (r: Self)
        ensures
            r.endpoint == self.endpoint,
            r.address@ == self.address@,
    {
        NodeInfo { endpoint: self.endpoint, address: self.address.clone() }
    }
}

/// Event emitted by the per-connection protocol handler of one peer.
#[derive(Debug)]
pub enum ProtocolEvent {
    /// A custom protocol was negotiated and opened.
    CustomProtocolOpen { protocol: usize, version: u8 },
    /// A message arrived on an open custom protocol.
    CustomMessage { protocol: usize, data: Vec<u8> },
    /// A custom protocol was closed.
    CustomProtocolClosed { protocol: usize },
    /// The handler has no active protocol left and is of no further use.
    Useless,
    /// A keep-alive probe started.
    PingStart,
    /// A keep-alive probe succeeded after `millis` milliseconds.
    PingSuccess { millis: u64 },
    /// The remote asked to be identified.
    IdentificationRequest,
    /// The identify exchange completed: the remote reported its listen
    /// addresses and the address it observed this node connecting from.
    Identified { listen_addrs: Vec<Multiaddr>, observed_addr: Multiaddr },
}

/// Low-level connection lifecycle event reported by the multiplexer.
#[derive(Debug)]
pub enum RawEvent {
    /// A connection to `peer_id` was established.
    Connected { peer_id: PeerId, endpoint: ConnectedPoint },
    /// The protocol handler of `peer_id` emitted an event.
    NodeEvent { peer_id: PeerId, event: ProtocolEvent },
    /// The connection to `peer_id` closed.
    NodeClosed { peer_id: PeerId },
    /// The connection to `peer_id` failed with an error.
    NodeError { peer_id: PeerId },
    /// Dialing `multiaddr` failed.
    DialError { multiaddr: Multiaddr },
    /// Dialing `multiaddr` failed before a peer identity was known.
    UnknownPeerDialError { multiaddr: Multiaddr },
    /// A remote is connecting in; the core decides whether to accept it.
    IncomingConnection { send_back_addr: Multiaddr },
    /// Accepting an incoming connection from `send_back_addr` failed.
    IncomingConnectionError { send_back_addr: Multiaddr },
    /// A second connection to `peer_id` superseded the tracked one.
    Replaced { peer_id: PeerId },
    /// The listener bound at `listen_addr` closed unexpectedly.
    ListenerClosed { listen_addr: Multiaddr },
}

/// Application-facing event vocabulary: what the core delivers to the
/// handle's sink, at most one per reactor cycle.
#[derive(Debug)]
pub enum ServiceEvent {
    /// The connection to a node ended; exactly one such event is emitted
    /// per disconnect, whatever caused it.
    NodeClosed { id: PeerId },
    /// A custom protocol is open with a node.
    CustomProtocolOpen { id: PeerId, protocol: usize, version: u8 },
    /// A custom protocol was closed.
    CustomProtocolClosed { id: PeerId, protocol: usize },
    /// A message arrived from a node on a custom protocol.
    CustomMessage { id: PeerId, protocol: usize, data: Vec<u8> },
    /// A node completed the identify exchange and reported the addresses it
    /// listens on.
    NodeInfo { id: PeerId, listen_address: Vec<Multiaddr> },
}

/// An instruction for the multiplexer, produced by the core's decisions and
/// carried out by the embedder's reactor loop.
#[derive(Debug)]
pub enum NetAction {
    /// Submit a dial to this address, with a freshly attached protocol
    /// handler.
    Dial { address: Multiaddr },
    /// Bind a listener at this address.
    Listen { address: Multiaddr },
    /// Accept the incoming connection, attaching a fresh protocol handler.
    AcceptIncoming,
    /// Close the live connection of this peer.
    Close { peer: PeerId },
    /// Enqueue a message on the live connection of this peer.
    SendCustomMessage { peer: PeerId, protocol: usize, data: Vec<u8> },
    /// Enqueue a message on every live connection.
    Broadcast { protocol: usize, data: Vec<u8> },
    /// Answer an identify request: this node's public key, everything it
    /// listens on, and the address it has recorded for the requester.
    RespondIdentify {
        requester: PeerId,
        public_key: PublicKey,
        listen_addresses: Vec<Multiaddr>,
        observed_addr: Multiaddr,
    },
}

/// One send request drained from the handle. `target` names the peer to
/// send to; `None` means broadcast to every connected peer.
#[derive(Debug)]
pub struct SendCommand {
    pub target: Option<PeerId>,
    pub protocol: usize,
    pub data: Vec<u8>,
}

/// The commands an application handle offered during one reactor cycle.
#[derive(Debug)]
pub struct HandleCommands {
    pub dials: Vec<Multiaddr>,
    pub listens: Vec<Multiaddr>,
    pub disconnects: Vec<PeerId>,
    pub sends: Vec<SendCommand>,
}

/// Extension point supplied by the embedder: a sink for translated events
/// and an optional source of outbound commands. Every command source has a
/// default that offers nothing, so embedders implement only what they need.
pub trait ServiceHandle {
    /// Receives the event translated in a reactor cycle.
    fn out_event(&self, event: Option<ServiceEvent>);

    /// Next address to dial, if any.
    fn new_dialer(&mut self) -> (r: Option<Multiaddr>) {
        None
    }

    /// Next address to listen on, if any.
    fn new_listen(&mut self) -> (r: Option<Multiaddr>) {
        None
    }

    /// Next peer to disconnect, if any.
    fn disconnect(&mut self) -> (r: Option<PeerId>) {
        None
    }

    /// One batch of send requests.
    fn send_message(&mut self) -> (r: Vec<SendCommand>) {
        Vec::new()
    }

    /// Polled once per cycle so the handle can drive its own progress; the
    /// core ignores the outcome.
    fn poll(&mut self) {
    }
}

} // verus!
