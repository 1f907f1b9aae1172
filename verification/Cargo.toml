[package]
name = "drummr"
version = "0.1.0"
edition = "2021"
publish = false

[dependencies]
midly = "0.5"
wmidi = "4"
anyhow = "1"
arc-swap = "1"
arrayvec = "0.7"
cpal = "0.15"
midir = "0.10"
rtrb = "0.3"
serde = { version = "1", features = ["derive"] }
serde_json = "1"
serde_with = "3"
tokio = { version = "1", features = ["full"] }
tokio-tungstenite = "0.24"
futures-util = { version = "0.3", features = ["sink"] }
toml = "0.8"
lazy_static = "1"
