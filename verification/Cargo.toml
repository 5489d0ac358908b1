[package]
name = "lax"
version = "0.1.0"
edition = "2021"
publish = false

[dependencies]
chrono = "0.4"
docopt = "1"
serde = { version = "1", features = ["derive"] }
serde_derive = "1"
