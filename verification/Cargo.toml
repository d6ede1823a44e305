[package]
name = "zooids"
version = "0.1.0"
edition = "2021"
publish = false

[dependencies]
bevy = { version = "0.13", default-features = false }
rand = "0.8"
clap = { version = "4", features = ["derive"] }
derive_more = "0.99"
