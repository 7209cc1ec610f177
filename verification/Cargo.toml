[package]
name = "vrcx_optimal_time"
version = "0.1.0"
edition = "2021"
publish = false

[dependencies]
chrono = "0.4"
num-traits = "0.2"
rusqlite = "*"
serde = "1"
serde_derive = "1"
toml = "*"
