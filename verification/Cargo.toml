[package]
name = "kukufm-dl"
version = "0.1.0"
edition = "2021"
publish = false

[dependencies]
m3u8-rs = "*"
anyhow = "1"
clap = { version = "4", features = ["derive"] }
console = "*"
indicatif = "*"
lofty = "*"
reqwest = { version = "0.12", default-features = false, features = ["cookies", "rustls-tls"] }
serde = { version = "1", features = ["derive"] }
serde_json = "1"
tokio = { version = "1", features = ["macros", "rt-multi-thread", "time", "sync", "fs", "io-util"] }
