[package]
name = "openservicebroker"
version = "0.1.0"
edition = "2021"
publish = false

[dependencies]
actix-web = "*"
anyhow = "*"

[dev-dependencies]
serde_json = "*"
