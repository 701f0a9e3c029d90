[package]
name = "fan-controller"
version = "0.1.0"
edition = "2021"
publish = false

[dependencies]
anyhow = "1"
clap = { version = "4", features = ["derive"] }
num = "0.4"
rumqttc = { version = "0.24", default-features = false }
serde_json = "1"
soapysdr = "0.4"
tokio = { version = "1", features = ["macros", "rt-multi-thread", "time"] }
