[package]
name = "exoshell"
version = "0.1.0"
edition = "2021"
publish = false

[dependencies]
anyhow = "1"
bytes = "1"
clap = { version = "4", features = ["derive"] }
crossterm = { version = "0.27", features = ["event-stream"] }
dirs = "5"
futures = "0.3"
pin-project = "1"
tokio = { version = "1", features = ["rt", "macros", "process", "sync", "io-util", "time"] }
tokio-util = { version = "0.7", features = ["io"] }
tracing = "0.1"
tracing-subscriber = "0.3"
