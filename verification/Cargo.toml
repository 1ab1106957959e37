[package]
name = "hato"
version = "0.2.0"
edition = "2021"
publish = false

[dependencies]
anyhow = "1"
indicatif = { version = "=0.18.6", default-features = false }
iroh = { version = "=1.4.1", default-features = false, features = ["tls-ring"] }
iroh-blobs = { version = "=0.104.0", default-features = false, features = ["fs-store"] }
n0-future = "=0.3.2"
reqwest = { version = "=0.13.5", default-features = false, features = ["json"] }
serde = { version = "1", features = ["derive"] }
serde_json = "1"
sha2 = "=0.11.1"
tokio = { version = "1", features = ["macros", "rt-multi-thread", "time", "signal", "fs", "sync"] }
tracing-subscriber = { version = "0.3", default-features = false, features = ["env-filter", "fmt"] }
walkdir = "2"
