[package]
name = "debug_console"
version = "0.3.0"
edition = "2021"
publish = false

[dependencies]
regex = "=1.13.1"
fancy-regex = "=0.14.0"
strip-ansi-escapes = "=0.2.1"
md-5 = "=0.10.6"
rand = "=0.8.8"
strsim = "=0.11.1"
chrono = "=0.4.45"
toml = "=0.8.23"
serde = { version = "=1.0.229", features = ["derive"] }
serde_json = "=1.0.154"
tokio = { version = "=1.54.1", features = ["full"] }
tokio-util = "0.7"
axum = "=0.7.9"
tower-http = { version = "=0.6.11", features = ["cors"] }
tracing = "=0.1.44"
tracing-subscriber = { version = "=0.3.23", features = ["env-filter"] }
reqwest = { version = "=0.12.28", default-features = false, features = ["json"] }
tokio-tungstenite = "=0.24.0"
futures-util = "=0.3.34"
inotify = "=0.11.5"
libc = "=0.2.191"
thiserror = "=2.0.21"
rmcp = { version = "*", features = ["server"] }
