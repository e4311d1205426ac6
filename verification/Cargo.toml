[package]
name = "shadowquic"
version = "0.1.0"
edition = "2021"
publish = false

[dependencies]
arc-swap = "*"
async-trait = "*"
bytes = "*"
gm-quic = "*"
notify = "*"
rustls = "*"
serde-saphyr = "*"
socket2 = "*"
tokio = { version = "*", features = ["full"] }
tracing = "*"
