[package]
name = "peft_convert"
version = "0.1.0"
edition = "2021"
publish = false

[dependencies]
candle-core = "*"
serde = { version = "1", features = ["derive"] }
serde_json = "1"
