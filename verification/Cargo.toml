[package]
name = "biorite"
version = "0.1.0"
edition = "2021"
publish = false

[dependencies]
lz4_flex = { version = "=0.10.0", features = ["checked-decode"] }
renet = "=0.0.11"
ed25519-dalek = "=1.0.1"
rand = "=0.8.8"
base64 = "=0.21.7"
serde = { version = "=1.0.229", features = ["derive"] }
bincode = "=1.3.3"
serde_json = "=1.0.154"
serde-big-array = "=0.5.1"
block-mesh = "=0.2.0"
clap = { version = "=4.6.7", features = ["derive"] }
bracket-noise = "=0.8.7"
splines = "=4.4.2"
uuid = { version = "=1.29.1", features = ["v4"] }
crossbeam-channel = "=0.5.17"
