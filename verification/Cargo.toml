[package]
name = "ferrowl"
version = "0.1.0"
edition = "2021"
publish = false

[dependencies]
serde = { version = "=1.0.229", features = ["derive"] }
mlua = { version = "=0.12.2", features = ["lua54", "vendored"] }
serde_json = "1"
parking_lot = "0.12"
