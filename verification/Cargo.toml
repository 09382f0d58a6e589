[package]
name = "steno"
version = "0.1.0"
edition = "2021"
publish = false

[dependencies]
rand = "0.9"
smol = "2"
rust-embed = "8"
clap = { version = "4.5.30", features = ["derive"] }
tokio = { version = "1.43.0", features = ["full"] }
futures = "0.3.31"
reqwest = { version = "0.12.12", features = ["stream"] }
flate2 = "1.0.35"
