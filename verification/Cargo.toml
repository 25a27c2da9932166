[package]
name = "rtic_sched"
version = "0.1.0"
edition = "2021"
publish = false

[dependencies]
sha3 = "0.10"
uuid = { version = "1", features = ["v4"] }
csv = "1"
toml = "0.5"
serde = { version = "1", features = ["derive"] }
proc-macro2 = "1"
quote = "1"
syn = { version = "1", features = ["full"] }
rtic-syntax = "1"
