[package]
name = "zkvm_jetpack"
version = "0.1.0"
edition = "2021"
publish = false

[dependencies]
anyhow = "1"
either = "1"
lazy_static = "1"
rayon = "1"
tempfile = "3"
tokio = { version = "1", features = ["macros", "rt", "rt-multi-thread", "sync"] }
tracing = "0.1"
