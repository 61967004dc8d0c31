[package]
name = "nebo_to_rnote"
version = "0.1.0"
edition = "2021"
publish = false

[dependencies]
anyhow = "*"
nalgebra = "*"
rnote-compose = "*"
rnote-engine = "*"
serde = { version = "*", features = ["derive"] }
serde_json = "*"
smol = "*"
