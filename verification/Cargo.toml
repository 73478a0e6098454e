[package]
name = "mpf_dev"
version = "0.1.0"
edition = "2021"
publish = false

[dependencies]
anyhow = "*"
clap = { version = "*", features = ["derive"] }
colored = "*"
dirs = "*"
futures-util = "*"
indicatif = "*"
reqwest = { version = "*", default-features = false, features = ["json", "stream", "rustls-tls"] }
serde_json = "*"
tokio = { version = "*", features = ["rt-multi-thread", "macros"] }
zip = "*"
