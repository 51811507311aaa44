[package]
name = "ir_emitter"
version = "0.1.0"
edition = "2021"
publish = false

[dependencies]
rustix = { version = "=0.38.44", features = ["fs"] }

[dev-dependencies]
rand = "=0.9.5"
rand_chacha = "=0.9.0"
