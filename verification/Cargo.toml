[package]
name = "jsonmodem"
version = "0.1.0"
edition = "2021"
publish = false

[dependencies]
bstr = { version = "=1.13.1", default-features = false, features = ["alloc"] }
serde = { version = "=1.0.229", features = ["derive"] }
