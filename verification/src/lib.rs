//! A rendezvous relay library: two peers that share an opaque session token
//! are paired by a server, then their framed messages are relayed between
//! them until either side fails.
//!
//! The library holds the pairing and forwarding logic: the rendezvous table
//! that mediates exactly one pairing per token, the parser for the
//! `/{role}/{session_id}` address path, the per-connection routing decision,
//! and the message-forwarding state machine. The surrounding process
//! (listener, handshake, task spawning) drives these from outside.

pub mod chars;
pub mod forwarder;
pub mod handler;
pub mod headers;
pub mod path;
pub mod table;
