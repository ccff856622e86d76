[package]
name = "airicode"
version = "0.1.0"
edition = "2021"
publish = false

[dependencies]
sha2 = "0.10"
unicode-width = "0.2"
serde = { version = "1", features = ["derive"] }
serde_json = "1"
uuid = { version = "1", features = ["v4", "v5", "serde"] }
async-trait = "0.1"
async-stream = "0.3"
futures-util = "0.3"
tokio = { version = "1", features = ["fs", "io-util", "macros", "net", "process", "rt-multi-thread", "sync", "time"] }
tokio-util = { version = "0.7", features = ["rt"] }
reqwest = { version = "0.12", default-features = false, features = ["json", "stream"] }
ratatui = "0.29"
crossterm = { version = "0.28", features = ["event-stream"] }
schemars = "1"
tempfile = "3"
