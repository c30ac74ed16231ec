//! Server side of the PostgreSQL v3 frontend/backend protocol: message codec,
//! row batch encoder and the per-connection protocol state machine.
pub mod wire;
pub mod protocol;
pub mod protocol_ext;
pub mod names;
pub mod connection;
pub mod codec;
pub mod to_wire;
