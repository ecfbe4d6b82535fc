[package]
name = "pulse"
version = "0.1.0"
edition = "2021"
publish = false

[dependencies]
chrono = { version = "=0.4.45", features = ["serde"] }
rust_decimal = { version = "=1.43.0", features = ["serde-with-str"] }
schemars = { version = "=1.2.3", features = ["rust_decimal1"] }
serde = { version = "=1.0.229", features = ["derive"] }
serde_json = "=1.0.154"
sha2 = "=0.10.9"
thiserror = "=2.0.21"
