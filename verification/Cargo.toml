[package]
name = "symbia"
version = "0.1.0"
edition = "2021"
publish = false

[dependencies]
serde = { version = "1", features = ["derive"] }
bincode = "1"
noise = "0.9"
rand = "0.8"
futures = "0.3"
tokio = { version = "1", features = ["rt-multi-thread"] }
libp2p = { version = "0.53", features = ["gossipsub", "mdns", "tcp", "noise", "yamux", "tokio", "macros", "ed25519"] }
