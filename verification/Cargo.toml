[package]
name = "ascending_core"
version = "0.1.0"
edition = "2021"
publish = false

[dependencies]
mio = { version = "*", features = ["net", "os-poll"] }
rustls = { version = "*", default-features = false, features = ["ring", "std"] }
chrono = { version = "*", default-features = false, features = ["clock", "std"] }
