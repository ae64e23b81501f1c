[package]
name = "greenthread"
version = "0.1.0"
edition = "2021"
publish = false

[dependencies]
futures = "0.3"
nix = "0.20"
signal-hook = "0.1"
tokio = { version = "1", features = ["full"] }
