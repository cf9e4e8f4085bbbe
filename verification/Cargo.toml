[package]
name = "dante_babelbox"
version = "0.1.0"
edition = "2021"
publish = false

[dependencies]
rosc = "0.10"
serde_json = "1"
serde = { version = "1", features = ["derive"] }
toml = "0.8"
tokio = { version = "1", features = ["rt-multi-thread", "net", "io-util", "sync", "time", "macros", "signal"] }
tokio-util = "0.7"
async-trait = "0.1"
tracing = "0.1"
anyhow = "1"
thiserror = "1"
clap = { version = "4", features = ["derive"] }
notify = "6"
mdns-sd = "0.11"
socket2 = { version = "0.5", features = ["all"] }
abi_stable = "0.11"
