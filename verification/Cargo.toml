[package]
name = "evm_core"
version = "0.1.0"
edition = "2021"
publish = false

[dependencies]
primitive-types = "*"
clap = { version = "*", features = ["derive"] }
hex = "*"
tracing = "*"
tracing-subscriber = "*"
