[package]
name = "updsh"
version = "0.1.0"
edition = "2021"
publish = false

[dependencies]
dirs = "*"
libc = "0.2"
rustyline = "*"
serde = { version = "1", features = ["derive"] }
serde_json = "1"
