[package]
name = "wallst"
version = "0.1.0"
edition = "2021"
publish = false

[dependencies]
clap = "=4.6.7"
xcb = "=0.10.1"
xcb-util = { version = "=0.4.0", features = ["image", "shm"] }
picto = "=0.4.4"
