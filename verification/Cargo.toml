[package]
name = "jvm_core"
version = "0.1.0"
edition = "2021"
publish = false

[dependencies]
regex = "1"
zip = { version = "2", default-features = false, features = ["deflate"] }
