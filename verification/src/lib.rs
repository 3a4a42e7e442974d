//! A verified core for the dalang real-time collaboration server: the binary
//! wire-protocol codec (category/opcode addressing, per-opcode payload
//! schemas, version handshake), the per-connection session state machine, and
//! the authenticator capability with a reference in-memory backend.
pub mod auth;
pub mod error;
pub mod models;
pub mod protocol;
pub mod schema;
pub mod server;
pub mod session;
pub mod wire;
