[package]
name = "p2proxy"
version = "0.1.0"
edition = "2021"
publish = false

[dependencies]
libp2p = { version = "=0.56.0", default-features = false }
chrono = { version = "=0.4.45", default-features = false, features = ["clock", "std", "serde"] }
keshvar = { version = "=0.7.0", features = ["search-iso-short-name", "search-iso-long-name"] }
sha2 = "=0.11.1"
base58-monero = { version = "=2.1.0", features = ["check"] }
serde = { version = "=1.0.229", features = ["derive"] }
serde_json = "=1.0.154"
thiserror = "=2.0.21"
human-bandwidth = { version = "=0.1.4", features = ["serde"] }
figment = { version = "=0.10.19", features = ["yaml", "env"] }
clap = { version = "=4.6.7", features = ["derive", "env"] }
tokio = { version = "=1.54.1", features = ["rt-multi-thread", "macros", "net", "time", "sync", "signal", "io-util"] }
tracing = "=0.1.44"
uuid = { version = "=1.29.0", features = ["v4", "serde"] }
arc-swap = "=1.9.3"
dashmap = "=6.2.1"
futures = "=0.3.34"
metrics = "=0.24.6"
color-eyre = "=0.6.5"
socks5-impl = "=0.10.3"
blake3 = "=1.8.7"
hex = "=0.4.3"
libp2p-stream = "=0.4.0-alpha"
