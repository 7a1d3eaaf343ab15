//! Peer-connection and protocol-event orchestration core of a peer-to-peer
//! network node.
//!
//! The library owns the live peer registry, the set of listening addresses
//! and the queue of dial targets awaiting a retry, and it makes every
//! decision of the connection lifecycle: translating low-level multiplexer
//! events into a small application-facing event vocabulary, draining
//! commands from the application handle in a fixed order, answering
//! identify requests and learning externally observed addresses.
//!
//! The multiplexer itself (sockets, secure handshake, substream
//! multiplexing) is an external collaborator: the core consumes its events
//! as values of [`event::RawEvent`] and answers with instructions of
//! [`event::NetAction`], which the embedder's reactor loop carries out.

pub mod addr;
pub mod event;
pub mod service;
pub mod laws;
