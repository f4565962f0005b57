[package]
name = "file_manager"
version = "0.1.0"
edition = "2021"
publish = false

[dependencies]
base64 = "0.13"
candid = "*"
ic-cdk = "*"
ic-certified-map = "*"
serde = { version = "1", features = ["derive"] }
serde_cbor = "0.11"
serde_json = "1"
sha2 = "0.10"
