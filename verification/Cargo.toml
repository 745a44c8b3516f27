[package]
name = "pocket_tts"
version = "0.1.0"
edition = "2021"
publish = false

[dependencies]
candle-core = "0.9"
candle-nn = "0.9"
anyhow = "1"
clap = { version = "4", features = ["derive"] }
owo-colors = "4"
num_enum = "0.7"
tokio = { version = "1", features = ["full"] }
