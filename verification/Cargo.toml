[package]
name = "kona_altda"
version = "0.1.0"
edition = "2021"
publish = false

[dependencies]
alloy-primitives = "*"
reqwest = { version = "*", default-features = false }
async-trait = "*"
tracing = "*"
