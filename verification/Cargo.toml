[package]
name = "rustyecho"
version = "0.1.0"
edition = "2021"
publish = false

[dependencies]
anyhow = "1"
async-trait = "0.1"
axum = { version = "0.7", features = ["ws", "multipart"] }
byteorder = "1"
candle-core = "0.8"
candle-nn = "0.8"
candle-transformers = "0.8"
futures-util = "0.3"
hf-hub = { version = "0.4", default-features = false, features = ["ureq", "rustls-tls"] }
hound = "3.5"
rubato = "0.15"
serde = { version = "1", features = ["derive"] }
serde_json = "1"
thiserror = "1"
tokenizers = { version = "0.21", default-features = false, features = ["fancy-regex"] }
tokio = { version = "1", features = ["rt-multi-thread", "macros", "net", "signal", "sync", "time"] }
tower-http = { version = "0.6", features = ["limit", "trace"] }
tracing = "0.1"
tracing-subscriber = { version = "0.3", features = ["env-filter"] }
uuid = { version = "1", features = ["v4"] }
