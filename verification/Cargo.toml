[package]
name = "eventfs"
version = "0.1.0"
edition = "2021"
publish = false

[dependencies]
anyhow = "=1.0.104"
clap = { version = "=4.6.7", features = ["derive", "env"] }
fuser = { version = "=0.14.0", default-features = false }
libc = "=0.2.191"
serde_json = "=1.0.154"
