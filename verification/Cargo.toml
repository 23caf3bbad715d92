[package]
name = "spanfall"
version = "0.1.0"
edition = "2021"
publish = false

[dependencies]
rustc-hash = "2"
opentelemetry-proto = { version = "*", features = ["gen-tonic", "trace", "with-serde"] }
prost = "*"
serde = { version = "1", features = ["derive"] }
serde_json = "1"
tokio = { version = "1", features = ["full"] }
tokio-stream = { version = "*", features = ["sync"] }
tonic = "*"
axum = "0.8"
parking_lot = "*"
clap = { version = "4", features = ["derive"] }
