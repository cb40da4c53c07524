[package]
name = "spm_core"
version = "0.1.0"
edition = "2021"
publish = false

[dependencies]
base64 = "=0.22.1"
candle-core = { version = "=0.9.2", default-features = false }
candle-nn = { version = "=0.9.2", default-features = false }
candle-transformers = { version = "=0.9.2", default-features = false }
tokenizers = { version = "=0.21.4", default-features = false, features = ["onig"] }
serde = { version = "=1.0.229", features = ["derive"] }
serde_json = "=1.0.154"
anyhow = "=1.0.104"
clap = { version = "=4.6.7", features = ["derive"] }
tokio = { version = "=1.54.1", features = ["rt-multi-thread", "macros", "io-std", "io-util"] }
reqwest = { version = "=0.12.28", default-features = false, features = ["json", "rustls-tls"] }
image = { version = "=0.25.10", default-features = false, features = ["png", "jpeg", "webp", "bmp"] }
uuid = { version = "=1.29.0", features = ["v4"] }
log = "=0.4.35"
env_logger = "=0.11.11"
