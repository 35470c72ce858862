[package]
name = "x0x-compute"
version = "0.1.0"
edition = "2021"
publish = false

[dependencies]
axum = "0.7"
bytes = "1"
clap = { version = "4", features = ["derive"] }
dirs = "5"
hex = "0.4"
serde = { version = "1", features = ["derive"] }
serde_json = "1"
sysinfo = "0.37"
thiserror = "2"
tokio = { version = "1", features = ["rt-multi-thread", "macros", "net", "sync"] }
toml = "0.8"
tracing = "0.1"
tracing-subscriber = { version = "0.3", features = ["env-filter"] }
