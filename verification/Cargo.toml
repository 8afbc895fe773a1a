[package]
name = "speed_daemon"
version = "0.1.0"
edition = "2021"
publish = false

[dependencies]
anyhow = "=1.0.104"
gethostname = "=1.1.0"
if-addrs = "=0.15.0"
libc = "=0.2.191"
rand = "=0.10.3"
rusqlite = { version = "=0.41.1", features = ["bundled"] }
serde = { version = "=1.0.229", features = ["derive"] }
serde_json = "=1.0.154"
socket2 = { version = "=0.6.5", features = ["all"] }
tokio = { version = "=1.54.1", features = ["full"] }
toml = "=1.1.8"
