[package]
name = "my_redis"
version = "0.1.0"
edition = "2021"
publish = false

[dependencies]
atoi = "2"
bytes = "1"
tokio = { version = "1", features = ["io-util", "macros", "net", "rt-multi-thread"] }
