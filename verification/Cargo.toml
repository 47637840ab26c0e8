[package]
name = "rusty_moves"
version = "0.1.0"
edition = "2021"
publish = false

[dependencies]
rand = "0.9"
tokio = { version = "1", features = ["net", "time", "rt-multi-thread", "macros"] }
anyhow = "1"
