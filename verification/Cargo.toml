[package]
name = "platoon"
version = "0.1.0"
edition = "2021"
publish = false

[dependencies]
slab = "0.4"
libc = "0.2"
polling = "2"
socket2 = { version = "0.4", features = ["all"] }
futures-io = "0.3"
futures = "0.3"
pin-project-lite = "0.2"
