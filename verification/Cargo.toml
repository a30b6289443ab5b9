[package]
name = "stack_switching"
version = "0.1.0"
edition = "2021"
publish = false

[dependencies]
anyhow = "1"
cfg-if = "1"
rustix = { version = "0.38", features = ["mm", "param"] }
