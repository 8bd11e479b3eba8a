[package]
name = "nu_completions"
version = "0.1.0"
edition = "2021"
publish = false

[dependencies]
shell-words = "*"
which = "*"
clap = { version = "*", features = ["derive"] }
tempfile = "*"
serde = { version = "*", features = ["derive"] }
reqwest = { version = "*", default-features = false, features = ["blocking", "json", "rustls-tls"] }
