//! The Modbus adapter.
pub mod connection;
pub mod laws;
pub mod server;
