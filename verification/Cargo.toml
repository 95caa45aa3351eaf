[package]
name = "ed448-rust"
version = "0.1.0"
edition = "2021"
publish = false

[dependencies]
num-bigint = "0.4"
opaque-debug = "0.3"
sha3 = "0.9"

[dev-dependencies]
hex = "0.4"
