[package]
name = "jarde_reader"
version = "0.1.0"
edition = "2021"
publish = false

[dependencies]
noak = "=0.7.0"
blake3 = "=1.8.7"
flate2 = "=1.1.10"
serde = { version = "=1.0.229", features = ["derive"] }
serde_json = "=1.0.154"

[dev-dependencies]
rawzip = "=0.5.2"
