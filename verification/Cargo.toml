[package]
name = "fftp"
version = "0.1.0"
edition = "2021"
publish = false

[dependencies]
ring = "*"
clap = { version = "*", features = ["derive"] }
mio = { version = "*", features = ["net", "os-poll"] }
