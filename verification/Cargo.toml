[package]
name = "skypier-blackhole"
version = "0.1.0"
edition = "2021"
publish = false

[dependencies]
anyhow = "=1.0.104"
chrono = "=0.4.45"
crossterm = { version = "=0.29.0", features = ["event-stream"] }
futures = "0.3"
ratatui = "*"
tokio = { version = "1", features = ["macros", "rt", "rt-multi-thread", "time", "signal", "sync"] }
tracing = "=0.1.44"
tracing-subscriber = { version = "=0.3.23", features = ["env-filter"] }
