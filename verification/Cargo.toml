[package]
name = "compositor"
version = "0.1.0"
edition = "2021"
publish = false

[dependencies]
twox-hash = "*"
crossterm = { version = "*", features = ["event-stream"] }
ratatui = "*"
tokio = { version = "*", features = ["rt", "rt-multi-thread", "sync", "time"] }
tokio-stream = { version = "*", features = ["time", "sync"] }
futures-util = "*"
