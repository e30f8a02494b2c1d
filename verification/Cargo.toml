[package]
name = "dedup_backfill"
version = "0.1.0"
edition = "2021"
publish = false

[dependencies]
kv = "=0.24.0"
chrono = { version = "=0.4.45", features = ["serde"] }
serde = { version = "=1.0.229", features = ["derive"] }
serde_json = "=1.0.151"
clap = { version = "=4.6.7", features = ["derive"] }
tokio = { version = "=1.53.2", features = ["macros", "rt-multi-thread", "io-util", "fs", "time"] }
reqwest = { version = "=0.13.5", default-features = false, features = ["json"] }
futures = "=0.3.34"
indicatif = "=0.18.6"
anyhow = "=1.0.104"
