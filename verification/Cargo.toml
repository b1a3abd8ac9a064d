[package]
name = "sst"
version = "0.1.0"
edition = "2021"
publish = false

[dependencies]
anyhow = "1"
chrono = "0.4"
clap = { version = "4", features = ["derive"] }
crossterm = { version = "*", features = ["event-stream"] }
directories = "*"
emojis = "*"
fd-lock = "*"
futures = "0.3"
qr2term = "*"
ratatui = "*"
serde_json = "1"
tokio = { version = "1", features = ["full"] }
tracing = "0.1"
tracing-subscriber = { version = "0.3", features = ["env-filter"] }
uuid = "1"
