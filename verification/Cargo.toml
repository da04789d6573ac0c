[package]
name = "lumiere_agent"
version = "0.1.0"
edition = "2021"
publish = false

[dependencies]
base64 = "=0.22.1"
serde = { version = "=1.0.229", features = ["derive"] }
serde_json = "=1.0.154"
hostname = "=0.4.2"
tokio = { version = "=1.54.1", features = ["rt-multi-thread", "macros", "time", "sync", "process", "fs", "io-util"] }
reqwest = { version = "=0.12.28", default-features = false, features = ["json"] }
sysinfo = "=0.30.13"
chrono = { version = "=0.4.45", default-features = false, features = ["clock"] }
tokio-tungstenite = "0.26"
futures-util = { version = "0.3", features = ["sink"] }
