[package]
name = "notnative"
version = "0.1.0"
edition = "2021"
publish = false

[dependencies]
anyhow = "=1.0.104"
chrono = "=0.4.45"
dirs = "=7.0.0"
futures = "=0.3.34"
reqwest = { version = "=0.12.28", default-features = false, features = ["json", "rustls-tls"] }
rig-core = "=0.44.0"
rig-sqlite = "=0.44.0"
rusqlite = { version = "=0.32.1", features = ["bundled"] }
serde = { version = "=1.0.229", features = ["derive"] }
serde_json = "=1.0.151"
sqlite-vec = "=0.1.9"
tokio = { version = "=1.53.2", features = ["rt-multi-thread", "macros", "sync", "time"] }
tokio-rusqlite = "=0.6.0"
