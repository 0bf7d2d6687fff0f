[package]
name = "modbus_mqtt"
version = "0.1.0"
edition = "2021"
publish = false

[dependencies]
serde_json = "*"
rust_decimal = "*"
serde = { version = "*", features = ["derive"] }
tokio = { version = "*", features = ["full"] }
rumqttc = "*"
tokio-modbus = "*"
tokio-serial = "*"
clap = { version = "*", features = ["derive"] }
url = "*"
bytes = "*"
futures-util = "*"
tokio-tungstenite = "*"
reqwest = { version = "*", default-features = false, features = ["json"] }
async-trait = "*"
uuid = { version = "*", features = ["v4"] }
