[package]
name = "seqgen"
version = "0.1.0"
edition = "2021"
publish = false

[dependencies]
anyhow = "1"
candle-core = "0.9"
candle-nn = "0.9"
candle-transformers = "0.9"
hf-hub = { version = "0.4", default-features = false, features = ["tokio"] }
serde_json = "1"
tokenizers = { version = "0.21", default-features = false, features = ["unstable_wasm"] }
tokio = { version = "1", features = ["macros", "rt-multi-thread"] }
tracing = "0.1"
tracing-subscriber = "0.3"
