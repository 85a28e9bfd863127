[package]
name = "rmpyou"
version = "0.1.0"
edition = "2021"
publish = false

[dependencies]
ureq = { version = "3", features = ["native-tls", "platform-verifier"] }
slint = { version = "1", default-features = false, features = ["std", "compat-1-2"] }
rfd = "0.15"
