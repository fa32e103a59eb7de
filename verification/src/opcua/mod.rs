//! The OPC UA adapter.
pub mod browse;
pub mod connection;
pub mod laws;
pub mod nodes;
pub mod server;
pub mod tree;
