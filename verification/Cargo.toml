[package]
name = "sword"
version = "0.1.0"
edition = "2021"
publish = false

[dependencies]
rand = "=0.8.8"
anyhow = "=1.0.104"
aya = "=0.13.1"
axum = "=0.8.9"
clap = { version = "=4.6.7", features = ["derive"] }
libc = "=0.2.191"
log = "=0.4.35"
moka = { version = "=0.12.16", features = ["future"] }
prometheus-client = "=0.25.2"
reqwest = { version = "0.12", default-features = false, features = ["blocking"] }
tokio = { version = "=1.54.1", features = ["full"] }
tracing = "=0.1.44"
tracing-subscriber = "=0.3.23"
walkdir = "=2.5.0"
