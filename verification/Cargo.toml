[package]
name = "bus_json"
version = "0.1.0"
edition = "2021"
publish = false

[dependencies]
anyhow = "1"
clap = { version = "3.2", features = ["derive"] }
jq-rs = "0.4"
serde_json = "1"
zbus = "3"
