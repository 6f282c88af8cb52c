[package]
name = "trusty-search"
version = "0.1.0"
edition = "2021"
publish = false

[dependencies]
anyhow = "1"
axum = "0.8"
chrono = "0.4"
clap = { version = "4", features = ["derive", "env"] }
clap_complete = "4"
colored = "2"
dashmap = "=6.2.1"
dirs = "5"
dotenvy = "0.15"
eventsource-stream = "0.2"
futures = "0.3"
futures-util = "0.3"
indicatif = "0.17"
libc = "0.2"
lru = "=0.12.5"
open = "5"
reqwest = { version = "0.12", default-features = false, features = ["json", "stream"] }
serde = { version = "1", features = ["derive"] }
serde_json = "=1.0.154"
sha2 = "=0.10.9"
sysinfo = "0.33"
tokio = { version = "1", features = ["full"] }
tokio-stream = { version = "0.1", features = ["sync"] }
tracing = "0.1"
tracing-subscriber = "0.3"
walkdir = "2"
