//! Transport layer of a peer-to-peer node.
//!
//! Before any application data flows, two nodes exchange their routing
//! identity in a handshake. This crate holds the logic of that exchange and
//! of the engine that drives it, free of input and output:
//!
//! - `wire`: the handshake frame, byte by byte;
//! - `identity`: the identity of a node and of a peer, to and from a payload;
//! - `conn`: the envelope of one connection, with the handshake state
//!   machine on its read side and a queue of buffers on its write side;
//! - `table`: the pending connections by identifier;
//! - `ring`: round-robin selection of workers;
//! - `event`: commands, socket reports and the actions asked of the caller;
//! - `fault`: failures and how far they reach;
//! - `model`: the engine as a state machine over ghost values;
//! - `net`: the engine itself;
//! - `laws`: what holds of every run of the engine.

pub mod conn;
pub mod event;
pub mod fault;
pub mod identity;
pub mod laws;
pub mod model;
pub mod net;
pub mod ring;
pub mod table;
pub mod wire;
