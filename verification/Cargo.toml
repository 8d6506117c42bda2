[package]
name = "snake_duel"
version = "0.1.0"
edition = "2021"
publish = false

[dependencies]
rand = "=0.8.8"
itertools = "=0.15.0"
sfml = { version = "=0.25.1", default-features = false, features = ["graphics"] }
