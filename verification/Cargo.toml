[package]
name = "hyveos"
version = "0.1.0"
edition = "2021"
publish = false

[dependencies]
patricia_tree = "=0.10.2"
colored = "=3.1.1"
colored_json = "=5.0.0"
serde_json = "=1.0.154"
serde = { version = "=1.0.229", features = ["derive"] }
ulid = "=3.0.0"
base64-simd = "=0.8.0"
indicatif = "=0.18.6"
rand = "=0.8.8"
libp2p-identity = { version = "=0.2.14", features = ["peerid", "rand"] }
tracing = { version = "=0.1.44", default-features = false, features = ["std"] }
multiaddr = "=0.18.2"
default-net = "=0.22.0"
dialoguer = "=0.12.0"
sha2 = "=0.10.9"
