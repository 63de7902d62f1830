[package]
name = "contract_conformance_guard"
version = "1.0.2"
edition = "2021"
publish = false

[dependencies]
anyhow = "1"
pdk = "1.10"
serde = { version = "1", features = ["derive"] }
serde_json = "1"
