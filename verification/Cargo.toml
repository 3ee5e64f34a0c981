[package]
name = "anyrun_hunspell"
version = "0.1.0"
edition = "2021"
publish = false

[dependencies]
abi_stable = "*"
anyrun-plugin = "*"
ron = "*"
serde = { version = "*", features = ["derive"] }
