[package]
name = "eh2telegraph"
version = "0.1.0"
edition = "2021"
rust-version = "1.95"
publish = false

[dependencies]
anyhow = "=1.0.104"
rand = "=0.8.8"
reqwest = { version = "=0.11.27", default-features = false, features = ["json", "multipart", "rustls-tls"] }
serde = { version = "=1.0.229", features = ["derive"] }
serde_json = "=1.0.154"
singleflight-async = "=0.1.3"
takecell = "=0.1.1"
teloxide = { version = "=0.12.2", default-features = false, features = ["macros", "rustls"] }
thiserror = "=1.0.69"
tokio = { version = "=1.54.1", features = ["macros", "rt", "sync"] }
tracing = "=0.1.44"
