[package]
name = "wordsearch"
version = "0.1.0"
edition = "2021"
publish = false

[dependencies]
itertools = "0.10"
rand = { version = "0.8", features = ["small_rng"] }
rayon = "1"
regex = "1"
