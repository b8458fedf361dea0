[package]
name = "thther"
version = "0.1.6"
edition = "2021"
publish = false

[dependencies]
anyhow = "1"
chacha20poly1305 = "0.10"
clap = { version = "4", features = ["derive"] }
crossterm = "0.28"
hex = "0.4"
hkdf = "0.12"
libc = "0.2"
portable-pty = "0.8"
rand = "0.8"
serde = { version = "1", features = ["derive"] }
serde_json = "1"
sha2 = "0.10"
thiserror = "1"
tokio = { version = "1", features = ["full"] }
toml = "0.8"
tracing = "0.1"
tracing-subscriber = { version = "0.3", features = ["env-filter"] }
