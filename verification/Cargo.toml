[package]
name = "tunnet"
version = "0.1.0"
edition = "2021"
publish = false

[dependencies]
anyhow = "=1.0.104"
bytes = "=1.12.1"
dashmap = "6"
ed25519-dalek = "=2.2.0"
hex = "=0.4.3"
hmac = "=0.13.0"
ipnet = "=2.12.2"
iroh-base = { version = "=1.4.1", features = ["key"] }
jiff = "=0.2.39"
libc = "=0.2.191"
netdev = "=0.47.0"
osdns = "=0.3.0"
prefix-trie = "=0.10.1"
rand = "=0.10.3"
route_manager = { version = "=0.2.17", features = ["async"] }
serde_json = "=1.0.154"
sha2 = "=0.11.1"
tokio = { version = "=1.54.1", features = ["full"] }
tracing = "=0.1.44"
tun-rs = { version = "=2.8.16", features = ["async"] }
uuid = { version = "=1.29.0", features = ["v4"] }
