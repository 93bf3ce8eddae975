[package]
name = "word_guesser"
version = "0.1.0"
edition = "2021"
publish = false

[dependencies]
uuid = { version = "1", features = ["v4"] }
tokio = { version = "1", features = ["rt-multi-thread", "net", "sync", "io-util", "signal", "macros", "fs"] }
anyhow = "1"
log = "0.4"
env_logger = "0.11"
indoc = "2"
