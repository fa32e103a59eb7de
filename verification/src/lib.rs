pub mod clock;
pub mod double;
pub mod envelope;
pub mod json;
pub mod laws;
pub mod modbus;
pub mod mqtt;
pub mod opcua;
pub mod text;
pub mod tools;
pub mod topology;
pub mod writing;
