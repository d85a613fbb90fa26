[package]
name = "task_limiter"
version = "0.1.0"
edition = "2021"
publish = false

[dependencies]
toml = "=0.5.11"
libc = "=0.2.191"
inotify = "=0.9.6"
rayon = "=1.12.0"
log = "=0.4.35"
env_logger = "=0.11.11"
chrono = "=0.4.45"
parking_lot = "=0.12.5"
tokio = { version = "=1.54.1", features = ["full"] }
