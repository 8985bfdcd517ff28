[package]
name = "djimic"
version = "0.1.0"
edition = "2021"
publish = false

[dependencies]
serde = { version = "1", features = ["derive"] }
serde_json = "1"
arc-swap = "1"
earshot = "1"
microdsp = "*"
libc = "0.2"
signal-hook = "0.3"
