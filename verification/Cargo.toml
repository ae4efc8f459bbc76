[package]
name = "achievement_sync"
version = "0.1.0"
edition = "2021"
publish = false

[dependencies]
anyhow = "=1.0.104"
base64 = "=0.22.1"
chrono = "=0.4.45"
dirs = "=5.0.1"
image = { version = "0.25", default-features = false, features = ["jpeg", "png"] }
log = "=0.4.34"
notify = "=6.1.1"
rand = "=0.8.8"
reqwest = { version = "0.12", features = ["json", "gzip", "brotli"] }
serde = { version = "=1.0.229", features = ["derive"] }
serde_json = "=1.0.154"
steamworks = "*"
sysinfo = "*"
urlencoding = "=2.1.3"
