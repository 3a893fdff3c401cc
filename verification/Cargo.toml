[package]
name = "rudis"
version = "0.1.0"
edition = "2021"
publish = false

[dependencies]
ahash = "0.8"
atoi = "2"
bytes = "1"
mio = { version = "1", features = ["os-poll", "net"] }
tracing = "0.1"
