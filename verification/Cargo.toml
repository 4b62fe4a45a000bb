[package]
name = "share_resolver"
version = "0.1.0"
edition = "2021"
publish = false

[dependencies]
axum = "=0.8.9"
futures-util = "=0.3.34"
percent-encoding = "=2.3.2"
regex = "=1.13.1"
reqwest = { version = "=0.12.28", default-features = false, features = ["rustls-tls", "stream", "http2"] }
serde = { version = "=1.0.229", features = ["derive"] }
serde_json = "=1.0.154"
tokio = { version = "=1.54.1", features = ["fs", "io-util", "macros", "net", "rt-multi-thread", "sync"] }
tower-http = { version = "=0.6.11", features = ["catch-panic", "cors", "request-id", "trace"] }
tracing = "=0.1.44"
url = "=2.5.8"
uuid = { version = "=1.29.0", features = ["serde", "v4"] }
