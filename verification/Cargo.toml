[package]
name = "neptune_discovery"
version = "0.1.0"
edition = "2021"
publish = false

[dependencies]
libp2p = { version = "0.56", default-features = false, features = ["kad", "mdns", "tokio", "tcp", "noise", "yamux", "ed25519"] }
linked_hash_set = "0.1"
futures = "0.3"
futures-timer = "3"
tokio = { version = "1", features = ["sync", "rt", "rt-multi-thread", "macros", "time"] }
tracing = "0.1"
rand = "0.9"
