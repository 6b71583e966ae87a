[package]
name = "ptyzzz"
version = "0.1.0"
edition = "2021"
publish = false

[dependencies]
clap = { version = "4", features = ["derive"] }
libghostty-vt-sys = "*"
portable-pty = "*"
serde = { version = "1", features = ["derive"] }
serde_json = "1"
