[package]
name = "asset_codec"
version = "0.1.0"
edition = "2021"
publish = false

[dependencies]
alloy-primitives = "*"
candid = "*"
ic-cdk = "*"
serde = "*"
serde_bytes = "*"
