[package]
name = "searchx"
version = "0.1.0"
edition = "2021"
publish = false

[dependencies]
blake3 = "=1.8.7"
bumpalo = "=3.20.3"
clap = { version = "=4.6.7", features = ["derive"] }
crossbeam-channel = "=0.5.17"
fastembed = { version = "=7.5.0", default-features = false, features = ["onnx", "ort-load-dynamic", "hf-hub-rustls-tls", "image-models"] }
ignore = "=0.4.34"
memmap2 = "=0.9.12"
rusqlite = { version = "=0.41.1", features = ["bundled"] }
serde = { version = "=1.0.229", features = ["derive"] }
serde_json = "=1.0.154"
tempfile = "=3.27.0"
thiserror = "=2.0.21"
