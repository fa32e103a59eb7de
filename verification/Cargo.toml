[package]
name = "fieldworks-adapters"
version = "1.0.0"
edition = "2021"
publish = false

[dependencies]
async-opcua = { version = "0.18", default-features = false, features = ["client"] }
chrono = "0.4"
rmcp = { version = "*", features = ["server", "macros", "transport-io", "schemars"] }
rumqttc = { version = "*", default-features = false }
serde = { version = "1", features = ["derive"] }
serde_json = "1"
serde_yaml = "0.9"
tokio = { version = "1", features = ["full"] }
tokio-modbus = { version = "*", default-features = false, features = ["tcp"] }
tracing = "0.1"
