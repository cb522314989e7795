[package]
name = "mqtt_workbench"
version = "0.1.0"
edition = "2021"
publish = false

[dependencies]
rumqttc = "0.24"
tokio = { version = "1", features = ["sync", "rt-multi-thread", "macros"] }
rustls-pemfile = "2"
rustls-native-certs = "0.8"
hex = "0.4"
chrono = "0.4"
uuid = { version = "1", features = ["v4"] }
serde = { version = "1", features = ["derive"] }
serde_json = "1"
serde_yaml = "0.9"
parking_lot = "0.12"
