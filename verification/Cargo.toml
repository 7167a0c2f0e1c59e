[package]
name = "bifrost"
version = "0.1.0"
edition = "2021"
publish = false

[dependencies]
axum = "0.7"
axum-server = { version = "0.7", features = ["tls-rustls-no-provider"] }
camino = "1"
hyper = "1"
log = "0.4"
pretty_env_logger = "0.5"
rustls = { version = "0.23", default-features = false, features = ["ring", "std", "logging", "tls12"] }
serde = { version = "1", features = ["derive"] }
serde_json = "1"
tokio = { version = "1", features = ["macros", "rt-multi-thread", "sync", "time", "net", "io-util"] }
uuid = { version = "=1.29.0", features = ["v4", "v5", "serde"] }
