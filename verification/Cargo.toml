[package]
name = "chroma_p2p"
version = "0.1.0"
edition = "2021"
publish = false

[dependencies]
blake3 = "1"
hex = "0.4"
snow = "0.9"
tokio = { version = "1", features = ["full"] }
tracing = "0.1"
zeroize = "1"
