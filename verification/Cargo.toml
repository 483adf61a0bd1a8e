[package]
name = "mempool_sync"
version = "0.1.0"
edition = "2021"
publish = false

[dependencies]
hashlink = "*"
bitcoin = "*"
futures = "*"
tokio = { version = "*", features = ["rt", "sync"] }
thiserror = "*"
anyhow = "*"
tracing = "*"
