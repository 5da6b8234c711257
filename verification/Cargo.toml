[package]
name = "learn_rust_cli"
version = "0.1.0"
edition = "2021"
publish = false

[dependencies]
murmur3 = "0.5"
libm = "0.2"
num-traits = "0.2"
clap = { version = "4", features = ["derive"] }
