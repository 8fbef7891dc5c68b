[package]
name = "cmk_helm"
version = "0.1.0"
edition = "2021"
publish = false

[dependencies]
anyhow = "=1.0.104"
crossterm = "=0.28.1"
ratatui = "=0.29.0"
reqwest = { version = "=0.12.28", default-features = false, features = ["rustls-tls"] }
tokio = { version = "=1.54.1", features = ["rt-multi-thread", "macros", "sync", "process", "io-util", "time"] }

[dev-dependencies]
regex = "1"
