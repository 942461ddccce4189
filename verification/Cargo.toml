[package]
name = "dynamodb_data"
version = "0.1.0"
edition = "2021"
publish = false

[dependencies]
serde = "=1.0.229"
serde_json = { version = "=1.0.154", features = ["float_roundtrip"] }
rusoto_core = "=0.48.0"
rusoto_dynamodb = "=0.48.0"
