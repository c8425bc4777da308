[package]
name = "prompt-compressor"
version = "0.1.0"
edition = "2021"
publish = false

[dependencies]
anyhow = "=1.0.104"
clap = { version = "=4.6.7", features = ["derive"] }
hf-hub = { version = "=1.0.0", default-features = false, features = ["blocking"] }
serde = { version = "=1.0.229", features = ["derive"] }
serde_json = { version = "=1.0.154", features = ["raw_value"] }
serde_yaml = "=0.9.34"
sha2 = "=0.10.9"
thiserror = "=2.0.21"
uuid = { version = "=1.29.0", features = ["v4"] }
