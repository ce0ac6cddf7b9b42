[package]
name = "scheme-gateway"
version = "0.1.0"
edition = "2021"
publish = false

[dependencies]
tokio = { version = "1", features = ["rt", "macros", "net", "io-util"] }
reqwest = { version = "0.12", default-features = false, features = ["rustls-tls"] }
inkwell = { version = "0.6", features = ["llvm18-1"] }
