[package]
name = "hop_relay"
version = "0.1.0"
edition = "2021"
publish = false

[dependencies]
bytes = "=0.4.12"
clap = "=2.34.0"
futures = "=0.1.31"
rand = "=0.5.6"
tokio = "=0.1.22"
tokio-io = "=0.1.13"

[dev-dependencies]
serde_json = "1"
