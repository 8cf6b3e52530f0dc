[package]
name = "research_utility"
version = "0.1.0"
edition = "2021"
publish = false

[dependencies]
arc-swap = "=1.9.3"
async-trait = "=0.1.92"
base64 = "=0.22.1"
bincode = "=1.3.3"
blake3 = { version = "=1.8.7", default-features = false, features = ["std", "pure"] }
clap = { version = "=4.6.7", features = ["derive"] }
crossterm = "=0.28.1"
futures-util = { version = "=0.3.34", features = ["sink"] }
lru = "=0.12.5"
parking_lot = "=0.12.5"
ratatui = { version = "=0.29.0", features = ["unstable-rendered-line-info"] }
rmp-serde = "=1.3.1"
rusqlite = { version = "=0.32.1", features = ["bundled"] }
serde = { version = "=1.0.229", features = ["derive"] }
serde_json = "=1.0.154"
tokio = { version = "=1.54.1", features = ["full"] }
tokio-util = { version = "=0.7.20", features = ["codec"] }
ureq = { version = "=2.12.1", features = ["json"] }
url = "=2.5.8"
