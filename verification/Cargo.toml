[package]
name = "agenticgen"
version = "0.1.0"
edition = "2021"
publish = false

[dependencies]
anyhow = "*"
chrono = "*"
hdrhistogram = "*"
nix = { version = "*", features = ["signal", "process"] }
parking_lot = "*"
serde = { version = "*", features = ["derive"] }
serde_json = "*"
tempfile = "*"
tokio = { version = "*", features = ["rt-multi-thread", "time", "process", "sync", "io-util", "macros"] }
wide = "*"
