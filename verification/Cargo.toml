[package]
name = "rproxy"
version = "0.1.0"
edition = "2021"
publish = false

[dependencies]
anyhow = "=1.0.104"
bytes = "=1.12.1"
clap = { version = "=4.6.7", features = ["derive", "env"] }
dashmap = "=6.2.1"
futures-util = { version = "=0.3.34", features = ["sink"] }
native-tls = "=0.2.18"
serde = { version = "=1.0.229", features = ["derive"] }
serde_json = "=1.0.154"
tokio = { version = "=1.54.1", features = ["full"] }
tokio-tungstenite = { version = "=0.24.0", features = ["native-tls"] }
tokio-util = { version = "=0.7.20", features = ["compat"] }
tracing = "=0.1.44"
tracing-subscriber = { version = "=0.3.23", features = ["env-filter"] }
tungstenite = "=0.24.0"
uuid = { version = "=1.29.0", features = ["v4"] }
yamux = "=0.13.10"
