[package]
name = "app-daemon"
version = "0.1.0"
edition = "2021"
publish = false

[dependencies]
anyhow = "1"
base64 = "=0.22.1"
freedesktop-desktop-entry = { version = "=0.7.19", default-features = false }
libc = "0.2"
notify = "8"
serde = { version = "1", features = ["derive"] }
serde_json = "1"
tokio = { version = "1", features = ["macros", "process", "rt-multi-thread", "signal", "sync", "time"] }
tracing = "0.1"
uuid = { version = "=1.29.0", features = ["v4"] }
walkdir = "2"
zbus = { version = "5", default-features = false, features = ["tokio"] }
