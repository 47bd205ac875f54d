[package]
name = "floppa_net"
version = "0.1.0"
edition = "2021"
publish = false

[dependencies]
anyhow = "1"
clap = { version = "4", features = ["derive", "env"] }
ipnetwork = "0.21"
serde_json = "1"
tokio = { version = "1", features = ["full"] }
tracing-appender = "*"
tracing-log = "*"
tracing-subscriber = { version = "*", features = ["env-filter", "fmt"] }
