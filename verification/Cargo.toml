[package]
name = "shuttle"
version = "0.1.0"
edition = "2021"
publish = false

[dependencies]
rand_core = "0.6"
rand_pcg = "0.3"

[dev-dependencies]
futures = { version = "0.3", default-features = false, features = ["std", "alloc"] }
