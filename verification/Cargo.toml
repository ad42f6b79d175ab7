[package]
name = "bitpacker"
version = "0.1.0"
edition = "2021"
publish = false

[dependencies]
flatbuffers = "*"
prost = "*"
rand = "*"
rmp-serde = "*"
serde = { version = "1", features = ["derive"] }
serde_json = "1"
