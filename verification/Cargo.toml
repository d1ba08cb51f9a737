[package]
name = "p9813"
version = "0.1.0"
edition = "2021"
publish = false

[dependencies]
embedded-hal = "1.0"

[dev-dependencies]
embedded-hal-mock = { version = "0.11", default-features = false, features = ["eh1"] }
