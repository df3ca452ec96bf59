[package]
name = "den-embed"
version = "0.1.0"
edition = "2021"
publish = false

[dependencies]
anyhow = "1"
axum = "=0.8.9"
blake2 = "=0.10.6"
hex = "=0.4.3"
ndarray = "=0.17.2"
ort = { version = "=2.0.0-rc.13", default-features = false, features = ["std", "ndarray", "load-dynamic"] }
serde = { version = "1", features = ["derive"] }
tokenizers = { version = "=0.23.2", default-features = false, features = ["fancy-regex"] }
tokio = { version = "1", features = ["macros", "net", "rt-multi-thread", "signal", "sync", "time"] }
tracing = "0.1"
tracing-subscriber = "0.3"
