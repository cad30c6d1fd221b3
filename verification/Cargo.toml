[package]
name = "kvs"
version = "0.1.0"
edition = "2021"
publish = false

[dependencies]
clap = "2"
failure = "0.1"
serde = { version = "1", features = ["derive"] }
serde_cbor = "0.11"
