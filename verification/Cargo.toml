[package]
name = "server_stats"
version = "0.1.0"
edition = "2021"
publish = false

[dependencies]
base64 = "0.13"
bincode = "1.3"
regex = "1"
sled = "0.34"
tokio = { version = "1", features = ["sync", "rt-multi-thread", "macros", "time"] }
xxhash-rust = { version = "0.8", features = ["xxh3"] }
serde = { version = "1", features = ["derive"] }
serde_json = "1"
serde_yaml = "0.9"
clap = { version = "4", features = ["derive"] }
chrono = "0.4"
tracing = "0.1"
reqwest = { version = "0.11", default-features = false, features = ["json"] }
warp = "0.3"
