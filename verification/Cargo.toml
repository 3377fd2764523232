[package]
name = "discovery"
version = "0.1.0"
edition = "2021"
publish = false

[dependencies]
futures = { version = "0.3", features = ["compat"] }
libp2p = { version = "0.28", default-features = false, features = ["kad", "mdns-async-std", "plaintext", "yamux"] }
log = "0.4"
tokio-timer = "0.2"

[dev-dependencies]
rand = "0.7"
