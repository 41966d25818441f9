[package]
name = "zk_auth"
version = "0.1.0"
edition = "2021"
publish = false

[dependencies]
num-bigint = { version = "0.4", features = ["rand"] }
rand = "0.8"
nanoid = "0.4"

[dev-dependencies]
hex = "0.4"
