[package]
name = "move_scheduler"
version = "0.1.0"
edition = "2021"
publish = false

[dependencies]
libafl = "0.11"
libafl_bolts = "0.11"
revm-primitives = "~1.1"
serde = { version = "=1.0.229", features = ["derive"] }
