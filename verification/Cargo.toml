[package]
name = "desktrace"
version = "0.1.0"
edition = "2021"
publish = false

[dependencies]
url = "=2.5.8"
chrono = "=0.4.45"
image = { version = "=0.25.10", default-features = false, features = ["jpeg"] }
serde = { version = "=1.0.229", features = ["derive"] }
serde_json = "=1.0.154"
rusqlite = { version = "=0.31.0", features = ["bundled"] }
uuid = { version = "=1.29.0", features = ["v4"] }
axum = "=0.7.9"
tokio = { version = "=1.54.1", features = ["rt-multi-thread", "net", "macros"] }
tower-http = { version = "=0.5.2", features = ["cors"] }
dirs = "5"
sysinfo = { version = "0.32", default-features = false, features = ["system"] }
arboard = { version = "3", default-features = false }
