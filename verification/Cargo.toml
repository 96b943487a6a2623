[package]
name = "columnar"
version = "0.1.0"
edition = "2021"
publish = false

[dependencies]
arrow = { version = "*", default-features = false }
bytes = "*"
croaring = "*"
flatbuffers = "*"
itertools = "*"
monoio = "*"
serde = { version = "*", features = ["derive"] }
