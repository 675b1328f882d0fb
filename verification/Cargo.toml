[package]
name = "serverx"
version = "0.1.0"
edition = "2021"
publish = false

[dependencies]
serde_json = "1"
slab = "0.4"
hashbrown = "0.14"
num-integer = "0.1"
uuid = "1"
tokio = { version = "1", features = ["io-util", "rt", "macros"] }
