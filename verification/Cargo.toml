[package]
name = "lensing"
version = "0.1.0"
edition = "2021"
publish = false

[dependencies]
cgmath = { version = "=0.18.0", features = ["serde"] }
chrono = "=0.4.45"
derive_more = { version = "=2.1.1", features = ["add", "add_assign"] }
rayon = "=1.12.0"
serde = { version = "=1.0.229", features = ["derive"] }
serde_json = "=1.0.151"
