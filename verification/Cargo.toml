[package]
name = "rustclear"
version = "0.1.0"
edition = "2021"
publish = false

[dependencies]
bytes = "1"
tokio = { version = "1", features = ["rt-multi-thread", "macros", "io-util", "io-std", "time", "sync"] }
async-trait = "0.1"
anyhow = "1"
rand = "0.9"
