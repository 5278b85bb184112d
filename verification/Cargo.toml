[package]
name = "positions"
version = "0.3.0"
edition = "2021"
publish = false

[dependencies]
num-bigint = "0.4"
num-integer = "0.1"
num-rational = { version = "0.4", features = ["num-bigint"] }
num-traits = "0.2"
serde = { version = "1", features = ["derive"] }
serde_json = "1"
smol_str = "0.2"
thiserror = "1"
