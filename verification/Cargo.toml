[package]
name = "tracer"
version = "0.1.0"
edition = "2021"
publish = false

[dependencies]
console = "=0.16.6"
indicatif = { version = "=0.16.2", features = ["rayon"] }
rand = "=0.8.8"
rayon = "=1.12.0"
