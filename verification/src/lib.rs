//! Core of a line-oriented IRC-style chat protocol: wire-format parsing and
//! serialization of messages (tags, source prefix, command, parameters),
//! a typed model of capability-negotiation messages, and the negotiator
//! state machine that drives the pre-registration capability handshake.

pub mod buffer;
pub mod cap_negotiator;
pub mod capability;
pub mod client;
pub mod generic_message;
pub mod laws;
pub mod message;
pub mod msg_cap;
pub mod parser;
pub mod text;
