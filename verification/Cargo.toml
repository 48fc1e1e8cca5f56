[package]
name = "pax_registry"
version = "0.1.0"
edition = "2021"
publish = false

[dependencies]
semver = "*"
serde = { version = "*", features = ["derive"] }
serde_json = "*"
serde_norway = "*"
actix-web = "*"
actix-files = "*"
