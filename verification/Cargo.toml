[package]
name = "lookup_index"
version = "0.1.0"
edition = "2021"
publish = false

[dependencies]
arrow-data = "=60.0.0"
arrow-schema = "=60.0.0"
serde = { version = "=1.0.229", features = ["derive"] }
uuid = { version = "=1.27.0", features = ["serde"] }
