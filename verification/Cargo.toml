[package]
name = "frost_gkr"
version = "0.1.0"
edition = "2021"
publish = false

[dependencies]
rayon = "1.10"
serde = { version = "1", features = ["derive"] }
zeroize = { version = "1", features = ["derive"] }

[dev-dependencies]
rand = "0.8"
