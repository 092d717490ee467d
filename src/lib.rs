//! A networked key-value store: framing, message encoding, the store and
//! the per-connection protocol, with their contracts proved.
pub mod actor;
pub mod comments;
pub mod connection;
pub mod encoder;
pub mod frame;
pub mod pb;
pub mod proto;
pub mod store;
pub mod strtok;
pub mod types;
pub mod user;
pub mod varint;
