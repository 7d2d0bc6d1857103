[package]
name = "rapl_energy"
version = "0.1.0"
edition = "2021"
publish = false

[dependencies]
indexmap = "*"
serde = { version = "*", features = ["derive"] }
ureq = { version = "*", default-features = false }
