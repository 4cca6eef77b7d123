[package]
name = "set_deque"
version = "0.1.0"
edition = "2021"
publish = false

[dependencies]
bincode = "1.3"
serde = "1"
sled = "0.34"
