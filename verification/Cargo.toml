[package]
name = "incognito"
version = "0.1.0"
edition = "2021"
publish = false

[dependencies]
k256 = "0.13"
elliptic-curve = "0.13"
sha2 = "0.10"
rand = "0.8"
serde = { version = "1", features = ["derive"] }
