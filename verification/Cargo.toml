[package]
name = "kafka_codec"
version = "0.1.0"
edition = "2021"
publish = false

[dependencies]
thiserror = "1"
tokio = { version = "1", features = ["net", "io-util", "rt-multi-thread", "macros"] }
