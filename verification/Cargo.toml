[package]
name = "crypto_hire_backend"
version = "0.1.0"
edition = "2021"
publish = false

[dependencies]
ic-stable-structures = "*"
ic-cdk = "*"
candid = "*"
serde = { version = "*", features = ["derive"] }
