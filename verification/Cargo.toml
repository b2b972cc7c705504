[package]
name = "mc_keygen"
version = "0.1.0"
edition = "2021"
publish = false

[dependencies]
chrono = "0.4"
clap = { version = "4", features = ["derive"] }
crossterm = "*"
cudarc = { version = "0.19", default-features = false, features = ["std", "driver", "nvrtc", "cuda-13010", "dynamic-loading"] }
curve25519-dalek = "*"
hex = "0.4"
metal = "0.30"
rand = "0.8"
ratatui = "*"
serde = { version = "1", features = ["derive"] }
serde_json = "1"
sha2 = "*"
sysinfo = "*"
