[package]
name = "unpacker"
version = "0.1.0"
edition = "2021"
publish = false

[dependencies]
clap = { version = "4", features = ["derive"] }
log = "0.4"
stderrlog = "0.6"
reqwest = { version = "0.12", default-features = false, features = ["blocking", "rustls-tls"] }
