//! The MQTT adapter.
pub mod connection;
pub mod feed;
pub mod laws;
pub mod server;
pub mod topics;
