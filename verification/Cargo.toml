[package]
name = "freetalk"
version = "0.1.0"
edition = "2021"
publish = false

[dependencies]
ciborium = "0.2"
ed25519-dalek = "2"
freenet-scaffold = "*"
unicode-segmentation = "1"
bs58 = "0.5"
serde = { version = "1", features = ["derive"] }
