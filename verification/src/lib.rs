//! Core of a Media-over-QUIC relay: tuple namespaces and their wire codec,
//! the local track registry, the coordinator registry model, the control
//! session state machines, and the remote-origin manager.

pub mod codec;
pub mod consumer;
pub mod coordinator;
pub mod endpoint;
pub mod locals;
pub mod namespace;
pub mod producer;
pub mod relay;
pub mod remotes;
pub mod session;
pub mod subgroup;
pub mod subscriber;
pub mod varint;
