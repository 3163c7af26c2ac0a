[package]
name = "rd_downloader"
version = "0.1.0"
edition = "2021"
publish = false

[dependencies]
hyperx = "1"
reqwest = { version = "0.11", default-features = false, features = ["json", "rustls-tls"] }
tokio = { version = "1", features = ["rt-multi-thread", "macros", "fs", "io-util", "sync"] }
futures = "0.3"
indicatif = "0.17"
dialoguer = "0.10"
console = "0.15"
color-eyre = "0.6"
eyre = "0.6"
serde = { version = "1", features = ["derive"] }
