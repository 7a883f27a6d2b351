[package]
name = "acos"
version = "0.1.0"
edition = "2021"
publish = false

[dependencies]
uuid = { version = "=1.29.0", features = ["v4", "serde"] }
serde = { version = "=1.0.229", features = ["derive"] }
serde_json = "=1.0.154"
serde_yaml = "=0.9.34"
tokio = { version = "=1.54.1", features = ["rt-multi-thread", "macros", "fs", "process", "time", "sync"] }
async-trait = "=0.1.92"
thiserror = "=1.0.69"
chrono = { version = "=0.4.45", features = ["serde"] }
dotenvy = "=0.15.7"
reqwest = { version = "=0.12.28", default-features = false, features = ["json"] }
