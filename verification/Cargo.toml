[package]
name = "ggs_node"
version = "0.1.0"
edition = "2021"
publish = false

[dependencies]
sha3 = "=0.10.9"
hex = "=0.4.3"
bs58 = "=0.5.1"
ed25519-dalek = "=2.2.0"
k256 = { version = "=0.13.4", default-features = false, features = ["ecdsa", "std"] }
rand = "=0.8.8"
anyhow = "=1.0.104"
futures = "=0.3.34"
parking_lot = "=0.12.5"
tokio = { version = "=1.53.2", features = ["rt-multi-thread", "macros", "time", "sync", "net", "io-util"] }
libp2p = { version = "=0.52.4", default-features = false, features = ["tokio", "tcp", "noise", "yamux", "gossipsub", "macros", "ed25519"] }
quinn = "=0.10.2"
rustls = "=0.21.12"
rcgen = "=0.11.3"
