[package]
name = "rdap_storm"
version = "0.1.0"
edition = "2021"
publish = false

[dependencies]
reqwest = { version = "*", default-features = false, features = ["rustls-tls"] }
tokio = { version = "*", features = ["full"] }
futures = "*"
serde = { version = "*", features = ["derive"] }
serde_json = "*"
