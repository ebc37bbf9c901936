[package]
name = "node_identity"
version = "0.1.0"
edition = "2021"
publish = false

[dependencies]
serde = { version = "1", features = ["derive"] }
rkyv = "0.7"
