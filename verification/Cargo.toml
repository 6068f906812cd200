[package]
name = "quinti_maze"
version = "0.1.0"
edition = "2021"
publish = false

[dependencies]
heapless = "0.8"
rand = { version = "0.8", default-features = false }
rand_chacha = { version = "0.3", default-features = false }
embedded-graphics = "0.8"
