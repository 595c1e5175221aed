[package]
name = "tailmux"
version = "0.1.0"
edition = "2021"
publish = false

[dependencies]
anyhow = "=1.0.104"
axum = { version = "=0.8.9", features = ["ws"] }
crossterm = { version = "=0.28.1", features = ["event-stream"] }
dirs-next = "=2.0.0"
futures-util = { version = "=0.3.34", features = ["sink"] }
hyper = { version = "=1.12.0", features = ["server", "http1", "http2"] }
hyper-util = { version = "=0.1.21", features = ["server-auto", "tokio", "service"] }
portable-pty = "=0.8.1"
rand = "=0.8.8"
ratatui = "=0.29.0"
rcgen = "=0.13.2"
ring = "=0.17.14"
rustls = "=0.23.46"
serde = { version = "=1.0.229", features = ["derive"] }
serde_json = "=1.0.154"
tokio = { version = "=1.54.1", features = ["full"] }
tokio-rustls = "=0.26.6"
tokio-tungstenite = { version = "=0.26.2", features = ["rustls-tls-native-roots"] }
tower-service = "=0.3.3"
