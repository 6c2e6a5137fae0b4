[package]
name = "duifene"
version = "0.1.0"
edition = "2021"
publish = false

[dependencies]
chrono = "=0.4.45"
dirs = "=6.0.0"
rand = "=0.9.5"
reqwest = { version = "=0.12.28", default-features = false, features = ["blocking", "json", "gzip", "rustls-tls"] }
serde = { version = "=1.0.229", features = ["derive"] }
serde_json = { version = "=1.0.154", features = ["raw_value"] }
thiserror = "=2.0.21"
