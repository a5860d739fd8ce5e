[package]
name = "complex_code_spotter"
version = "0.1.0"
edition = "2021"
publish = false

[dependencies]
globset = "=0.4.20"
encoding_rs = "=0.8.42"
rust-code-analysis = "=0.0.25"
serde = { version = "=1.0.229", features = ["derive"] }
serde_json = "=1.0.151"
html-escape = "=0.2.15"
clap = { version = "=4.6.7", features = ["derive"] }
cargo_metadata = "=0.23.1"
