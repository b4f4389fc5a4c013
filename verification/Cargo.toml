[package]
name = "narou_bridge"
version = "0.1.0"
edition = "2021"
publish = false

[dependencies]
sha2 = "=0.10.9"
regex = "=1.13.1"
uuid = { version = "=1.29.0", features = ["v4"] }
chrono = "=0.4.45"
serde_json = "=1.0.154"
serde_urlencoded = "=0.7.1"
serde = { version = "1", features = ["derive"] }
anyhow = "1"
axum = { version = "0.8", features = ["multipart"] }
tokio = { version = "1", features = ["rt-multi-thread", "macros", "sync", "time", "fs", "net"] }
reqwest = { version = "0.12", default-features = false, features = ["blocking", "rustls-tls"] }
rusqlite = { version = "*", features = ["bundled"] }
lopdf = "*"
zip = { version = "*", default-features = false, features = ["deflate"] }
serde-pickle = "*"
tempfile = "3"
http-body-util = "0.1"
bytes = "1"
