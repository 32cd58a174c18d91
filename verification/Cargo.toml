[package]
name = "music_cache"
version = "0.1.0"
edition = "2021"
publish = false

[dependencies]
md5 = "*"
rand = "*"
tokio = { version = "*", features = ["rt-multi-thread", "sync", "macros"] }
