[package]
name = "tinyharness-ui"
version = "0.1.0"
edition = "2021"
publish = false

[dependencies]
unicode-width = "0.2"
libc = "0.2"
rustyline = { version = "*", features = ["derive"] }
signal-hook = "0.3"
serde_json = "1"
